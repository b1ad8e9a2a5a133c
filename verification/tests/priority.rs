use sync_engine::envelope::types::TransactionEnvelope;
use sync_engine::queue::priority::{OutboundTxQueue, TxPriority};

fn mock_envelope(message_id: u8) -> TransactionEnvelope {
    TransactionEnvelope {
        message_id: [message_id; 32],
        origin_pubkey: [1u8; 32],
        tx_xdr: "mock_xdr".to_string(),
        ttl_hops: 10,
        timestamp: 1_700_000_000,
        signature: [0u8; 64],
    }
}

#[test]
fn test_higher_priority_pops_first() {
    let mut q = OutboundTxQueue::new();
    q.push(mock_envelope(1), TxPriority::Low);
    q.push(mock_envelope(2), TxPriority::Emergency);
    q.push(mock_envelope(3), TxPriority::Normal);

    assert_eq!(q.pop().unwrap().message_id, [2u8; 32]);
    assert_eq!(q.pop().unwrap().message_id, [3u8; 32]);
    assert_eq!(q.pop().unwrap().message_id, [1u8; 32]);
    assert!(q.pop().is_none());
}

#[test]
fn test_fifo_within_same_priority() {
    let mut q = OutboundTxQueue::new();
    q.push_at(mock_envelope(1), TxPriority::Normal, 100);
    q.push_at(mock_envelope(2), TxPriority::Normal, 50);
    q.push_at(mock_envelope(3), TxPriority::Normal, 200);

    // Oldest enqueued_at (50) should come out first.
    assert_eq!(q.pop().unwrap().message_id, [2u8; 32]);
    assert_eq!(q.pop().unwrap().message_id, [1u8; 32]);
    assert_eq!(q.pop().unwrap().message_id, [3u8; 32]);
}

#[test]
fn test_len_and_is_empty() {
    let mut q = OutboundTxQueue::new();
    assert!(q.is_empty());
    q.push(mock_envelope(1), TxPriority::Low);
    assert_eq!(q.len(), 1);
    assert!(!q.is_empty());
}

#[test]
fn peek_shows_what_pop_takes_and_leaves_it() {
    let mut q = OutboundTxQueue::new();
    assert!(q.peek().is_none());
    q.push_at(mock_envelope(4), TxPriority::Low, 10);
    q.push_at(mock_envelope(5), TxPriority::Normal, 30);
    q.push_at(mock_envelope(6), TxPriority::Normal, 20);
    assert_eq!(q.peek().unwrap().message_id, [6u8; 32]);
    assert_eq!(q.len(), 3);
    let popped = q.pop().unwrap();
    assert_eq!(popped.message_id, [6u8; 32]);
    assert_eq!(q.len(), 2);
    assert_eq!(q.peek().unwrap().message_id, [5u8; 32]);
}

#[test]
fn tier_beats_age() {
    let mut q = OutboundTxQueue::new();
    q.push_at(mock_envelope(1), TxPriority::Low, 1);
    q.push_at(mock_envelope(2), TxPriority::Emergency, 1_000);
    q.push_at(mock_envelope(3), TxPriority::Normal, 2);
    q.push_at(mock_envelope(4), TxPriority::Emergency, 999);
    let order: Vec<u8> = std::iter::from_fn(|| q.pop()).map(|e| e.message_id[0]).collect();
    assert_eq!(order, vec![4, 2, 3, 1]);
}

#[test]
fn equal_tier_and_time_come_out_in_queue_order() {
    let mut q = OutboundTxQueue::new();
    q.push_at(mock_envelope(7), TxPriority::Normal, 5);
    q.push_at(mock_envelope(8), TxPriority::Normal, 5);
    assert_eq!(q.pop().unwrap().message_id, [7u8; 32]);
    assert_eq!(q.pop().unwrap().message_id, [8u8; 32]);
}

#[test]
fn pop_returns_the_whole_envelope() {
    let mut q = OutboundTxQueue::new();
    let envelope = mock_envelope(9);
    q.push(envelope.clone(), TxPriority::Emergency);
    assert_eq!(q.pop().unwrap(), envelope);
    assert!(q.is_empty());
}

#[test]
fn priority_codes_round_trip() {
    assert_eq!(TxPriority::Low.code(), 0);
    assert_eq!(TxPriority::Normal.code(), 1);
    assert_eq!(TxPriority::Emergency.code(), 2);
    for p in [TxPriority::Low, TxPriority::Normal, TxPriority::Emergency] {
        assert_eq!(TxPriority::from_code(p.code()), Some(p));
    }
    assert_eq!(TxPriority::from_code(3), None);
    assert_eq!(TxPriority::from_code(-1), None);
}

#[test]
fn priorities_are_ordered_low_to_emergency() {
    assert!(TxPriority::Low < TxPriority::Normal);
    assert!(TxPriority::Normal < TxPriority::Emergency);
}
