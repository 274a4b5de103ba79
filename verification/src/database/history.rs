//! What holds of the tables after any sequence of operations: the steps that
//! the operations of the database take, one after the other, and what no
//! such sequence undoes.

use crate::database::escrow::Escrow;
use crate::database::keys::{lemma_sn_key_injective, sn_key};
use crate::database::laws::{lemma_finalise_extends_log, lemma_logged};
use crate::database::receipts::ReceiptKind;
use crate::database::soundness::{
    lemma_escrowed_sound, lemma_finalise_sound, lemma_index_sound, lemma_logged_sound,
    lemma_receipts_sound, lemma_released_sound,
};
use crate::database::Tables;
use crate::signatures::Signature;
use vstd::prelude::*;

verus! {

/// One step of the database: what one successful operation does to the
/// tables.
pub enum Step {
    /// An identifier is given an id.
    Index { prefix: Seq<u8>, id: u64 },
    /// An event is logged; `signatures` is what is stored for it afterwards.
    Log { id: u64, digest: Seq<u8>, raw: Seq<u8>, stamp: Seq<u8>, signatures: Seq<Signature> },
    /// An event is finalised.
    Finalise { id: u64, sn: u64, digest: Seq<u8> },
    /// An event is moved into an escrow.
    Escrow { category: Escrow, id: u64, sn: u64, digest: Seq<u8> },
    /// An event is discarded from the escrows.
    Discard { id: u64, sn: u64, digest: Seq<u8> },
    /// A receipt is added to the receipts of finalised events.
    Receipt {
        kind: ReceiptKind,
        id: u64,
        sn: u64,
        digest: Seq<u8>,
        signer: Seq<u8>,
        signature: Seq<u8>,
    },
    /// A receipt is set aside.
    EscrowReceipt {
        kind: ReceiptKind,
        id: u64,
        sn: u64,
        digest: Seq<u8>,
        signer: Seq<u8>,
        signature: Seq<u8>,
    },
    /// The receipts that waited for an event are moved to its receipts.
    Replay { kind: ReceiptKind, id: u64, sn: u64, digest: Seq<u8> },
}

impl Tables {
    /// Whether the step can be taken: what the operation that takes it makes
    /// sure of before it writes. An id is given to an identifier that has
    /// none, and it is the next id; an event is finalised at the next
    /// position of its log; the canonical event of a position is not made to
    /// wait.
    pub open spec fn admits(self, step: Step) -> bool {
        match step {
            Step::Index { prefix, id } => {
                &&& !self.indexed(prefix)
                &&& self.next_id(id)
                &&& self.index(prefix, id).id_of(prefix) == Some(id)
            },
            Step::Finalise { id, sn, digest } => self.next_position(id, sn),
            Step::Escrow { category, id, sn, digest } => !self.settled_at(category, id, sn, digest),
            _ => true,
        }
    }

    /// The tables after the step.
    pub open spec fn after(self, step: Step) -> Tables {
        match step {
            Step::Index { prefix, id } => self.index(prefix, id),
            Step::Log { id, digest, raw, stamp, signatures } => self.logged(
                id,
                digest,
                raw,
                stamp,
                signatures,
            ),
            Step::Finalise { id, sn, digest } => self.finalise(id, sn, digest),
            Step::Escrow { category, id, sn, digest } => self.escrowed(category, id, sn, digest),
            Step::Discard { id, sn, digest } => self.released(id, sn, digest),
            Step::Receipt { kind, id, sn, digest, signer, signature } => self.with_receipt(
                kind,
                id,
                sn,
                digest,
                signer,
                signature,
            ),
            Step::EscrowReceipt {
                kind,
                id,
                sn,
                digest,
                signer,
                signature,
            } => self.with_escrowed_receipt(kind, id, sn, digest, signer, signature),
            Step::Replay { kind, id, sn, digest } => self.replayed(kind, id, sn, digest),
        }
    }

    /// The tables after the steps, taken in order.
    pub open spec fn after_all(self, steps: Seq<Step>) -> Tables
        decreases steps.len(),
    {
        if steps.len() == 0 {
            self
        } else {
            self.after_all(steps.drop_last()).after(steps.last())
        }
    }

    /// Whether the steps can be taken in order.
    pub open spec fn admits_all(self, steps: Seq<Step>) -> bool
        decreases steps.len(),
    {
        if steps.len() == 0 {
            true
        } else {
            self.admits_all(steps.drop_last()) && self.after_all(steps.drop_last()).admits(
                steps.last(),
            )
        }
    }
}

/// A step keeps sound tables sound.
pub proof fn lemma_step_sound(tables: Tables, step: Step)
    requires
        tables.sound(),
        tables.admits(step),
    ensures
        tables.after(step).sound(),
{
    match step {
        Step::Index { prefix, id } => {
            lemma_index_sound(tables, prefix, id);
        },
        Step::Log { id, digest, raw, stamp, signatures } => {
            lemma_logged_sound(tables, id, digest, raw, stamp, signatures);
        },
        Step::Finalise { id, sn, digest } => {
            lemma_finalise_sound(tables, id, sn, digest);
        },
        Step::Escrow { category, id, sn, digest } => {
            lemma_escrowed_sound(tables, category, id, sn, digest);
        },
        Step::Discard { id, sn, digest } => {
            lemma_released_sound(tables, id, sn, digest);
        },
        Step::Receipt { kind, id, sn, digest, signer, signature } => {
            lemma_receipts_sound(tables, kind, id, sn, digest, signer, signature);
        },
        Step::EscrowReceipt { kind, id, sn, digest, signer, signature } => {
            lemma_receipts_sound(tables, kind, id, sn, digest, signer, signature);
        },
        Step::Replay { kind, id, sn, digest } => {
            lemma_receipts_sound(tables, kind, id, sn, digest, Seq::empty(), Seq::empty());
        },
    }
}

/// A step takes no id away and changes none: an identifier keeps the id that
/// it has.
pub proof fn lemma_step_keeps_id(tables: Tables, step: Step, prefix: Seq<u8>, id: u64)
    requires
        tables.admits(step),
        tables.id_of(prefix) == Some(id),
    ensures
        tables.after(step).id_of(prefix) == Some(id),
{
}

/// A step takes no canonical event away and replaces none: the canonical
/// event of a position stays what it is.
pub proof fn lemma_step_keeps_canonical(
    tables: Tables,
    step: Step,
    id: u64,
    sn: u64,
    digest: Seq<u8>,
)
    requires
        tables.admits(step),
        tables.canonical(id, sn) == Some(digest),
    ensures
        tables.after(step).canonical(id, sn) == Some(digest),
{
    assert(tables.finalised(id, sn));
}

/// Whatever is done, in whatever order, sound tables stay sound: ids stay
/// distinct, every log stays without gaps, no event is in two escrows and no
/// canonical event waits in one.
pub proof fn lemma_history_sound(tables: Tables, steps: Seq<Step>)
    requires
        tables.sound(),
        tables.admits_all(steps),
    ensures
        tables.after_all(steps).sound(),
    decreases steps.len(),
{
    if steps.len() > 0 {
        lemma_history_sound(tables, steps.drop_last());
        lemma_step_sound(tables.after_all(steps.drop_last()), steps.last());
    }
}

/// Whatever is done, in whatever order, an identifier keeps the id that it
/// once had: the id is never changed and never withdrawn.
pub proof fn lemma_history_keeps_id(tables: Tables, steps: Seq<Step>, prefix: Seq<u8>, id: u64)
    requires
        tables.id_of(prefix) == Some(id),
        tables.admits_all(steps),
    ensures
        tables.after_all(steps).id_of(prefix) == Some(id),
    decreases steps.len(),
{
    if steps.len() > 0 {
        lemma_history_keeps_id(tables, steps.drop_last(), prefix, id);
        lemma_step_keeps_id(tables.after_all(steps.drop_last()), steps.last(), prefix, id);
    }
}

/// Whatever is done, in whatever order, the canonical event of a position
/// stays what it is: a log only grows.
pub proof fn lemma_history_keeps_canonical(
    tables: Tables,
    steps: Seq<Step>,
    id: u64,
    sn: u64,
    digest: Seq<u8>,
)
    requires
        tables.canonical(id, sn) == Some(digest),
        tables.admits_all(steps),
    ensures
        tables.after_all(steps).canonical(id, sn) == Some(digest),
    decreases steps.len(),
{
    if steps.len() > 0 {
        lemma_history_keeps_canonical(tables, steps.drop_last(), id, sn, digest);
        lemma_step_keeps_canonical(
            tables.after_all(steps.drop_last()),
            steps.last(),
            id,
            sn,
            digest,
        );
    }
}

/// The digests of the events finalised for identifier `id` by the steps, in
/// the order of the steps.
pub open spec fn finalised_in(steps: Seq<Step>, id: u64) -> Seq<Seq<u8>>
    decreases steps.len(),
{
    if steps.len() == 0 {
        Seq::empty()
    } else {
        let earlier = finalised_in(steps.drop_last(), id);
        match steps.last() {
            Step::Finalise { id: of, sn, digest } => if of == id {
                earlier.push(digest)
            } else {
                earlier
            },
            _ => earlier,
        }
    }
}

/// The bytes that the steps logged last for the event of identifier `id`
/// under `digest`, if they logged it.
pub open spec fn logged_in(steps: Seq<Step>, id: u64, digest: Seq<u8>) -> Option<Seq<u8>>
    decreases steps.len(),
{
    if steps.len() == 0 {
        None
    } else {
        match steps.last() {
            Step::Log { id: of, digest: under, raw, stamp, signatures } => if of == id && under
                == digest {
                Some(raw)
            } else {
                logged_in(steps.drop_last(), id, digest)
            },
            _ => logged_in(steps.drop_last(), id, digest),
        }
    }
}

/// The bytes, as the steps logged them last, of the first `upto` events that
/// the steps finalised for identifier `id`, one behind the other.
pub open spec fn finalised_bytes(steps: Seq<Step>, id: u64, upto: nat) -> Seq<u8>
    decreases upto,
{
    if upto == 0 || upto > finalised_in(steps, id).len() {
        Seq::empty()
    } else {
        finalised_bytes(steps, id, (upto - 1) as nat) + match logged_in(
            steps,
            id,
            finalised_in(steps, id)[upto - 1],
        ) {
            Some(raw) => raw,
            None => Seq::empty(),
        }
    }
}

impl Tables {
    /// The bytes of the canonical events of identifier `id` at the positions
    /// below `upto`, one behind the other.
    pub open spec fn log_bytes(self, id: u64, upto: nat) -> Seq<u8>
        decreases upto,
    {
        if upto == 0 || upto > u64::MAX + 1 {
            Seq::empty()
        } else {
            self.log_bytes(id, (upto - 1) as nat) + match self.event_at(id, (upto - 1) as u64) {
                Some(raw) => raw,
                None => Seq::empty(),
            }
        }
    }
}

/// A step leaves every table in place.
proof fn lemma_step_complete(tables: Tables, step: Step)
    requires
        tables.complete(),
    ensures
        tables.after(step).complete(),
{
}

/// The log of an identifier after a sequence of steps, from a state in which
/// it had no canonical event: its canonical events are those that the steps
/// finalised for it, in the order of the steps, at the positions 0, 1, 2 and
/// so on; nothing is added, dropped, repeated or reordered.
pub proof fn lemma_history_log(tables: Tables, steps: Seq<Step>, id: u64)
    requires
        tables.complete(),
        tables.log_length(id, 0),
        tables.admits_all(steps),
    ensures
        tables.after_all(steps).complete(),
        tables.after_all(steps).log_length(id, finalised_in(steps, id).len()),
        forall|sn: u64|
            sn < finalised_in(steps, id).len() ==> #[trigger] tables.after_all(steps).canonical(
                id,
                sn,
            ) == Some(finalised_in(steps, id)[sn as int]),
    decreases steps.len(),
{
    if steps.len() > 0 {
        let front = steps.drop_last();
        let step = steps.last();
        lemma_history_log(tables, front, id);
        let reached = tables.after_all(front);
        let after = reached.after(step);
        let earlier = finalised_in(front, id);
        lemma_step_complete(reached, step);
        match step {
            Step::Finalise { id: of, sn, digest } => {
                if of == id {
                    lemma_finalise_extends_log(reached, id, sn, digest, earlier.len());
                    assert forall|at: u64| at < earlier.len() + 1 implies #[trigger]
                        after.canonical(id, at) == Some(earlier.push(digest)[at as int]) by {
                        if at != sn {
                            assert(reached.canonical(id, at) == Some(earlier[at as int]));
                        }
                    }
                } else {
                    assert forall|at: u64| #[trigger]
                        after.canonical(id, at) == reached.canonical(id, at) by {
                        if sn_key(id, at) == sn_key(of, sn) {
                            lemma_sn_key_injective(id, at, of, sn);
                        }
                    }
                    assert forall|at: u64| #[trigger] after.finalised(id, at) <==> at
                        < earlier.len() by {
                        assert(after.canonical(id, at) == reached.canonical(id, at));
                        assert(reached.finalised(id, at) <==> at < earlier.len());
                    }
                    assert forall|at: u64| at < earlier.len() implies #[trigger]
                        after.canonical(id, at) == Some(earlier[at as int]) by {
                        assert(reached.canonical(id, at) == Some(earlier[at as int]));
                    }
                }
            },
            _ => {
                assert forall|at: u64| #[trigger]
                    after.canonical(id, at) == reached.canonical(id, at) by {}
                assert forall|at: u64| #[trigger] after.finalised(id, at) <==> at
                    < earlier.len() by {
                    assert(after.canonical(id, at) == reached.canonical(id, at));
                    assert(reached.finalised(id, at) <==> at < earlier.len());
                }
                assert forall|at: u64| at < earlier.len() implies #[trigger] after.canonical(
                    id,
                    at,
                ) == Some(earlier[at as int]) by {
                    assert(reached.canonical(id, at) == Some(earlier[at as int]));
                }
            },
        }
    }
}

/// The bytes logged under a digest after a sequence of steps: those that the
/// steps logged last, or, if they logged none, those that were there before.
pub proof fn lemma_history_bytes(tables: Tables, steps: Seq<Step>, id: u64, digest: Seq<u8>)
    requires
        tables.complete(),
    ensures
        tables.after_all(steps).complete(),
        tables.after_all(steps).event_bytes(id, digest) == match logged_in(steps, id, digest) {
            Some(raw) => Some(raw),
            None => tables.event_bytes(id, digest),
        },
    decreases steps.len(),
{
    if steps.len() > 0 {
        let front = steps.drop_last();
        let step = steps.last();
        lemma_history_bytes(tables, front, id, digest);
        let reached = tables.after_all(front);
        lemma_step_complete(reached, step);
        match step {
            Step::Log { id: of, digest: under, raw, stamp, signatures } => {
                lemma_logged(reached, of, under, raw, stamp, signatures);
            },
            _ => {},
        }
    }
}

/// The key event log of an identifier is the bytes of its canonical events
/// in the order of their positions, if the log has no gap and the bytes of
/// every canonical event were logged.
pub proof fn lemma_kerl_is_the_log(tables: Tables, id: u64, length: nat)
    requires
        tables.log_length(id, length),
        tables.log_has_bytes(id),
        length <= u64::MAX + 1,
    ensures
        tables.kerl(id) == tables.log_bytes(id, length),
{
    lemma_kerl_from(tables, id, length, 0);
    assert(tables.log_bytes(id, 0) + tables.kerl_from(id, 0) =~= tables.kerl(id));
}

/// The bytes below a position and the bytes from it on make up the whole.
proof fn lemma_kerl_from(tables: Tables, id: u64, length: nat, from: nat)
    requires
        tables.log_length(id, length),
        tables.log_has_bytes(id),
        length <= u64::MAX + 1,
        from <= length,
    ensures
        tables.log_bytes(id, length) == tables.log_bytes(id, from) + tables.kerl_from(id, from),
    decreases length - from,
{
    if from == length {
        if from <= u64::MAX {
            assert(!tables.finalised(id, from as u64));
        }
        assert(tables.kerl_from(id, from) =~= Seq::<u8>::empty());
        assert(tables.log_bytes(id, from) + Seq::<u8>::empty() =~= tables.log_bytes(id, from));
    } else {
        lemma_kerl_from(tables, id, length, from + 1);
        assert(tables.finalised(id, from as u64));
        let bytes = tables.event_at(id, from as u64)->0;
        assert(tables.kerl_from(id, from) == bytes + tables.kerl_from(id, from + 1));
        assert(tables.log_bytes(id, from + 1) == tables.log_bytes(id, from) + bytes);
        assert((tables.log_bytes(id, from) + bytes) + tables.kerl_from(id, from + 1)
            =~= tables.log_bytes(id, from) + (bytes + tables.kerl_from(id, from + 1)));
    }
}

/// Round trip over any sequence of steps: for an identifier that had no
/// canonical event, the key event log after the steps is the bytes of the
/// events that the steps finalised for it, in the order in which they were
/// finalised, each as it was logged last. Every finalised event must have
/// been logged by the steps, before or after it was finalised; steps on
/// other identifiers, other events, the escrows and the receipts in between
/// change nothing.
pub proof fn lemma_history_kerl(tables: Tables, steps: Seq<Step>, id: u64)
    requires
        tables.complete(),
        tables.log_length(id, 0),
        tables.admits_all(steps),
        forall|k: int|
            0 <= k < finalised_in(steps, id).len() ==> logged_in(
                steps,
                id,
                #[trigger] finalised_in(steps, id)[k],
            ) is Some,
    ensures
        tables.after_all(steps).kerl(id) == finalised_bytes(
            steps,
            id,
            finalised_in(steps, id).len(),
        ),
{
    let after = tables.after_all(steps);
    let digests = finalised_in(steps, id);
    lemma_history_log(tables, steps, id);
    lemma_no_more_than_positions(tables, steps, id);
    assert forall|sn: u64| #[trigger] after.finalised(id, sn) implies after.event_at(
        id,
        sn,
    ) is Some by {
        assert(sn < digests.len());
        assert(after.canonical(id, sn) == Some(digests[sn as int]));
        lemma_history_bytes(tables, steps, id, digests[sn as int]);
    }
    lemma_kerl_is_the_log(after, id, digests.len());
    lemma_log_bytes_of_history(tables, steps, id, digests.len());
}

/// A log has no more events than there are sequence numbers.
proof fn lemma_no_more_than_positions(tables: Tables, steps: Seq<Step>, id: u64)
    requires
        tables.complete(),
        tables.log_length(id, 0),
        tables.admits_all(steps),
    ensures
        finalised_in(steps, id).len() <= u64::MAX + 1,
    decreases steps.len(),
{
    if steps.len() > 0 {
        let front = steps.drop_last();
        lemma_no_more_than_positions(tables, front, id);
        lemma_history_log(tables, front, id);
        match steps.last() {
            Step::Finalise { id: of, sn, digest } => {
                if of == id {
                    lemma_finalise_extends_log(
                        tables.after_all(front),
                        id,
                        sn,
                        digest,
                        finalised_in(front, id).len(),
                    );
                }
            },
            _ => {},
        }
    }
}

/// The bytes of the canonical events below a position are the bytes of the
/// events finalised, as they were logged.
proof fn lemma_log_bytes_of_history(tables: Tables, steps: Seq<Step>, id: u64, upto: nat)
    requires
        tables.complete(),
        tables.log_length(id, 0),
        tables.admits_all(steps),
        upto <= finalised_in(steps, id).len(),
        finalised_in(steps, id).len() <= u64::MAX + 1,
        forall|k: int|
            0 <= k < finalised_in(steps, id).len() ==> logged_in(
                steps,
                id,
                #[trigger] finalised_in(steps, id)[k],
            ) is Some,
    ensures
        tables.after_all(steps).log_bytes(id, upto) == finalised_bytes(steps, id, upto),
    decreases upto,
{
    if upto > 0 {
        let after = tables.after_all(steps);
        let digests = finalised_in(steps, id);
        lemma_log_bytes_of_history(tables, steps, id, (upto - 1) as nat);
        lemma_history_log(tables, steps, id);
        let at = (upto - 1) as u64;
        assert(after.canonical(id, at) == Some(digests[at as int]));
        lemma_history_bytes(tables, steps, id, digests[upto - 1]);
        assert(logged_in(steps, id, digests[upto - 1]) is Some);
    }
}

} // verus!
