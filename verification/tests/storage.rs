use sync_engine::envelope::types::TransactionEnvelope;
use sync_engine::queue::priority::TxPriority;
use sync_engine::storage::{conflict_from_columns, id_from_bytes, record_from_columns};

fn mock_envelope(message_id: u8) -> TransactionEnvelope {
    TransactionEnvelope {
        message_id: [message_id; 32],
        origin_pubkey: [1u8; 32],
        tx_xdr: "mock_xdr".to_string(),
        ttl_hops: 10,
        timestamp: 1_700_000_000,
        signature: [0u8; 64],
    }
}

#[test]
fn stored_ids_of_the_right_length_come_back() {
    let bytes: Vec<u8> = (0u8..32).collect();
    let id = id_from_bytes(&bytes);
    assert_eq!(id.to_vec(), bytes);
}

#[test]
fn stored_ids_of_the_wrong_length_read_as_zero() {
    assert_eq!(id_from_bytes(&vec![7u8; 31]), [0u8; 32]);
    assert_eq!(id_from_bytes(&vec![7u8; 33]), [0u8; 32]);
    assert_eq!(id_from_bytes(&Vec::new()), [0u8; 32]);
}

#[test]
fn record_columns_rebuild_the_record() {
    let record = record_from_columns(mock_envelope(1), "GABC".to_string(), 101, 2, 1000).unwrap();
    assert_eq!(record.envelope, mock_envelope(1));
    assert_eq!(record.source_account, "GABC");
    assert_eq!(record.sequence, 101);
    assert_eq!(record.priority, TxPriority::Emergency);
    assert_eq!(record.enqueued_at, 1000);
}

#[test]
fn record_with_unknown_priority_code_is_refused() {
    assert!(record_from_columns(mock_envelope(1), "GABC".to_string(), 101, 7, 1000).is_none());
}

#[test]
fn conflict_columns_rebuild_the_conflict() {
    let conflict = conflict_from_columns("GABC".to_string(), 101, &vec![1u8; 32], &vec![2u8; 32]);
    assert_eq!(conflict.source_account, "GABC");
    assert_eq!(conflict.sequence, 101);
    assert_eq!(conflict.envelope_a, [1u8; 32]);
    assert_eq!(conflict.envelope_b, [2u8; 32]);
}

#[test]
fn queueing_time_survives_the_signed_column() {
    let stored = u64::MAX as i64;
    let record = record_from_columns(mock_envelope(2), "GA".to_string(), 1, 0, stored).unwrap();
    assert_eq!(record.enqueued_at, u64::MAX);
    assert_eq!(record.priority, TxPriority::Low);
}
