//! Durable storage of queued envelopes, sequence reservations and detected
//! conflicts: the records as read back from the database, and the decoding
//! of stored columns into them. The database access itself is I/O and lives
//! with the embedding application.

use vstd::prelude::*;

use crate::conflict::detector::Conflict;
use crate::envelope::types::TransactionEnvelope;
use crate::queue::priority::TxPriority;

verus! {

/// A queued envelope as stored: the envelope with the slot it occupies, its
/// tier and when it was queued (Unix seconds).
#[derive(Debug, Clone, PartialEq)]
pub struct QueuedEnvelopeRecord {
    pub envelope: TransactionEnvelope,
    pub source_account: String,
    pub sequence: i64,
    pub priority: TxPriority,
    pub enqueued_at: u64,
}

/// A stored 32-byte id: the bytes themselves where exactly 32 were stored,
/// all zeros otherwise.
pub fn id_from_bytes(bytes: &Vec<u8>) -> (id: [u8; 32])
    ensures
        bytes@.len() == 32 ==> id@ == bytes@,
        bytes@.len() != 32 ==> forall|i: int| 0 <= i < 32 ==> id[i] == 0,
{
    let mut id = [0u8; 32];
    if bytes.len() != 32 {
        return id;
    }
    let mut i: usize = 0;
    while i < 32
        invariant
            i <= 32,
            bytes@.len() == 32,
            forall|j: int| 0 <= j < i ==> id[j] == bytes@[j],
        decreases 32 - i,
    {
        id.set(i, bytes[i]);
        i = i + 1;
    }
    assert(id@ =~= bytes@);
    id
}

/// Rebuilds a queued-envelope record from its stored columns: `None` where
/// the stored priority code names no tier.
pub fn record_from_columns(
    envelope: TransactionEnvelope,
    source_account: String,
    sequence: i64,
    priority_code: i64,
    enqueued_at: i64,
) -> (record: Option<QueuedEnvelopeRecord>)
    ensures
        match record {
            Some(r) => {
                &&& r.envelope == envelope
                &&& r.source_account == source_account
                &&& r.sequence == sequence
                &&& r.priority.rank() == priority_code
                &&& r.enqueued_at == enqueued_at as u64
            },
            None => !(0 <= priority_code <= 2),
        },
{
    match TxPriority::from_code(priority_code) {
        None => None,
        Some(priority) => Some(
            QueuedEnvelopeRecord {
                envelope,
                source_account,
                sequence,
                priority,
                enqueued_at: enqueued_at as u64,
            },
        ),
    }
}

/// Rebuilds a recorded conflict from its stored columns.
pub fn conflict_from_columns(
    source_account: String,
    sequence: i64,
    envelope_a: &Vec<u8>,
    envelope_b: &Vec<u8>,
) -> (conflict: Conflict)
    ensures
        conflict.source_account == source_account,
        conflict.sequence == sequence,
        envelope_a@.len() == 32 ==> conflict.envelope_a@ == envelope_a@,
        envelope_a@.len() != 32 ==> forall|i: int| 0 <= i < 32 ==> conflict.envelope_a[i] == 0,
        envelope_b@.len() == 32 ==> conflict.envelope_b@ == envelope_b@,
        envelope_b@.len() != 32 ==> forall|i: int| 0 <= i < 32 ==> conflict.envelope_b[i] == 0,
{
    Conflict {
        source_account,
        sequence,
        envelope_a: id_from_bytes(envelope_a),
        envelope_b: id_from_bytes(envelope_b),
    }
}

/// A tier survives storage: the code it is stored under names it and no
/// other tier, so `from_code(p.code())` gives back `p`.
pub proof fn lemma_priority_code_round_trip(p: TxPriority)
    ensures
        0 <= p.rank() <= 2,
        forall|q: TxPriority| #[trigger] q.rank() == p.rank() ==> q == p,
{
}

/// A queueing time survives storage: stored as the signed column value
/// (`as i64`) and read back (`as u64`), every `u64` comes back unchanged.
pub proof fn lemma_enqueued_at_round_trip(enqueued_at: u64)
    ensures
        ((enqueued_at as i64) as u64) == enqueued_at,
{
    assert(((enqueued_at as i64) as u64) == enqueued_at) by (bit_vector);
}

} // verus!
