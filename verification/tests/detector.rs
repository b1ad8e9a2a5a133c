use sync_engine::conflict::detector::{conflicts_between, detect_conflicts, Conflict, QueuedSlot};

fn slot(account: &str, sequence: i64, message_id: u8) -> QueuedSlot {
    QueuedSlot {
        source_account: account.to_string(),
        sequence,
        message_id: [message_id; 32],
    }
}

fn sorted(mut conflicts: Vec<Conflict>) -> Vec<(String, i64, [u8; 32], [u8; 32])> {
    let mut out: Vec<(String, i64, [u8; 32], [u8; 32])> = conflicts
        .drain(..)
        .map(|c| (c.source_account, c.sequence, c.envelope_a, c.envelope_b))
        .collect();
    out.sort();
    out
}

#[test]
fn test_same_slot_different_envelopes_conflicts() {
    let a = slot("GABC", 101, 1);
    let b = slot("GABC", 101, 2);
    let conflict = conflicts_between(&a, &b).unwrap();
    assert_eq!(conflict.source_account, "GABC");
    assert_eq!(conflict.sequence, 101);
}

#[test]
fn test_same_envelope_seen_twice_is_not_a_conflict() {
    let a = slot("GABC", 101, 1);
    let b = slot("GABC", 101, 1);
    assert!(conflicts_between(&a, &b).is_none());
}

#[test]
fn test_different_sequence_is_not_a_conflict() {
    let a = slot("GABC", 101, 1);
    let b = slot("GABC", 102, 2);
    assert!(conflicts_between(&a, &b).is_none());
}

#[test]
fn test_different_account_is_not_a_conflict() {
    let a = slot("GABC", 101, 1);
    let b = slot("GXYZ", 101, 2);
    assert!(conflicts_between(&a, &b).is_none());
}

#[test]
fn test_detect_conflicts_in_batch() {
    let slots = vec![
        slot("GABC", 101, 1),
        slot("GABC", 101, 2), // conflicts with the above
        slot("GABC", 102, 3), // no conflict, different sequence
        slot("GXYZ", 101, 4), // no conflict, different account
    ];
    let conflicts = detect_conflicts(&slots);
    assert_eq!(conflicts.len(), 1);
    assert_eq!(conflicts[0].source_account, "GABC");
    assert_eq!(conflicts[0].sequence, 101);
}

#[test]
fn test_no_conflicts_in_clean_batch() {
    let slots = vec![slot("GABC", 101, 1), slot("GABC", 102, 2)];
    assert!(detect_conflicts(&slots).is_empty());
}

#[test]
fn conflict_names_both_envelopes_in_argument_order() {
    let a = slot("GABC", 7, 9);
    let b = slot("GABC", 7, 3);
    let conflict = conflicts_between(&a, &b).unwrap();
    assert_eq!(conflict.envelope_a, [9u8; 32]);
    assert_eq!(conflict.envelope_b, [3u8; 32]);
    let reversed = conflicts_between(&b, &a).unwrap();
    assert_eq!(reversed.envelope_a, [3u8; 32]);
    assert_eq!(reversed.envelope_b, [9u8; 32]);
}

#[test]
fn ids_differing_in_one_byte_conflict() {
    let a = slot("GABC", 5, 1);
    let mut b = slot("GABC", 5, 1);
    b.message_id[31] = 2;
    assert!(conflicts_between(&a, &b).is_some());
}

#[test]
fn three_claimants_give_neighbouring_pairs_in_byte_order() {
    let slots = vec![
        slot("GABC", 101, 3),
        slot("GABC", 101, 1),
        slot("GABC", 101, 2),
        slot("GABC", 101, 1), // seen twice, counted once
    ];
    let conflicts = sorted(detect_conflicts(&slots));
    assert_eq!(
        conflicts,
        vec![
            ("GABC".to_string(), 101, [1u8; 32], [2u8; 32]),
            ("GABC".to_string(), 101, [2u8; 32], [3u8; 32]),
        ]
    );
}

#[test]
fn byte_order_decides_neighbours_not_queue_order() {
    let mut low = [0u8; 32];
    low[0] = 1;
    low[31] = 200;
    let mut high = [0u8; 32];
    high[0] = 2;
    let slots = vec![
        QueuedSlot { source_account: "GA".to_string(), sequence: 1, message_id: high },
        QueuedSlot { source_account: "GA".to_string(), sequence: 1, message_id: low },
    ];
    let conflicts = detect_conflicts(&slots);
    assert_eq!(conflicts.len(), 1);
    assert_eq!(conflicts[0].envelope_a, low);
    assert_eq!(conflicts[0].envelope_b, high);
}

#[test]
fn conflicts_in_several_slots_are_each_reported_once() {
    let slots = vec![
        slot("GABC", 101, 1),
        slot("GXYZ", 7, 5),
        slot("GABC", 101, 2),
        slot("GXYZ", 7, 4),
        slot("GABC", 102, 9),
    ];
    let conflicts = sorted(detect_conflicts(&slots));
    assert_eq!(
        conflicts,
        vec![
            ("GABC".to_string(), 101, [1u8; 32], [2u8; 32]),
            ("GXYZ".to_string(), 7, [4u8; 32], [5u8; 32]),
        ]
    );
}

#[test]
fn pairwise_conflict_in_a_batch_is_detected() {
    let slots = vec![slot("GABC", 101, 8), slot("GQ", 3, 1), slot("GABC", 101, 6)];
    assert!(conflicts_between(&slots[0], &slots[2]).is_some());
    let conflicts = detect_conflicts(&slots);
    assert!(conflicts
        .iter()
        .any(|c| c.source_account == "GABC" && c.sequence == 101));
}

#[test]
fn empty_batch_has_no_conflicts() {
    assert!(detect_conflicts(&Vec::new()).is_empty());
}
