use sync_engine::errors::SyncEngineError;
use sync_engine::queue::sequence::{MultisigAccountRegistry, SequenceReservationManager};

#[test]
fn test_reserve_without_seed_errors() {
    let mut mgr = SequenceReservationManager::new();
    assert!(matches!(
        mgr.reserve_next("GABC"),
        Err(SyncEngineError::NoSequenceReserved(_))
    ));
}

#[test]
fn test_reserve_increments_from_seed() {
    let mut mgr = SequenceReservationManager::new();
    mgr.seed("GABC", 100);
    assert_eq!(mgr.reserve_next("GABC").unwrap(), 101);
    assert_eq!(mgr.reserve_next("GABC").unwrap(), 102);
    assert_eq!(mgr.reserve_next("GABC").unwrap(), 103);
    assert_eq!(mgr.last_reserved("GABC"), Some(103));
}

#[test]
fn test_accounts_are_independent() {
    let mut mgr = SequenceReservationManager::new();
    mgr.seed("GABC", 100);
    mgr.seed("GXYZ", 5);
    assert_eq!(mgr.reserve_next("GABC").unwrap(), 101);
    assert_eq!(mgr.reserve_next("GXYZ").unwrap(), 6);
}

#[test]
fn test_release_rolls_back_last_reservation() {
    let mut mgr = SequenceReservationManager::new();
    mgr.seed("GABC", 100);
    let seq = mgr.reserve_next("GABC").unwrap();
    mgr.release("GABC", seq).unwrap();
    assert_eq!(mgr.last_reserved("GABC"), Some(100));
    // Reserving again should hand out the same sequence number.
    assert_eq!(mgr.reserve_next("GABC").unwrap(), 101);
}

#[test]
fn test_release_rejects_non_matching_sequence() {
    let mut mgr = SequenceReservationManager::new();
    mgr.seed("GABC", 100);
    mgr.reserve_next("GABC").unwrap(); // 101
    mgr.reserve_next("GABC").unwrap(); // 102
    assert!(matches!(
        mgr.release("GABC", 101),
        Err(SyncEngineError::SequenceOutOfOrder { .. })
    ));
}

#[test]
fn test_multisig_registry_seed_and_lookup() {
    let mut registry = MultisigAccountRegistry::new();
    let signer_a = [1u8; 32];
    let signer_b = [2u8; 32];
    registry.seed("GMULTISIG", vec![(signer_a, 1), (signer_b, 2)], 2);

    assert_eq!(registry.signer_weight("GMULTISIG", &signer_a), Some(1));
    assert_eq!(registry.signer_weight("GMULTISIG", &signer_b), Some(2));
    assert_eq!(registry.threshold("GMULTISIG"), Some(2));
    assert!(registry.is_known_signer("GMULTISIG", &signer_a));
}

#[test]
fn test_multisig_registry_unknown_account_and_signer() {
    let registry = MultisigAccountRegistry::new();
    assert_eq!(registry.signer_weight("GUNKNOWN", &[9u8; 32]), None);
    assert_eq!(registry.threshold("GUNKNOWN"), None);
    assert!(!registry.is_known_signer("GUNKNOWN", &[9u8; 32]));

    let mut registry = MultisigAccountRegistry::new();
    registry.seed("GMULTISIG", vec![([1u8; 32], 1)], 1);
    assert!(!registry.is_known_signer("GMULTISIG", &[9u8; 32]));
}

#[test]
fn release_without_seed_errors_and_changes_nothing() {
    let mut mgr = SequenceReservationManager::new();
    match mgr.release("GABC", 1) {
        Err(SyncEngineError::NoSequenceReserved(account)) => assert_eq!(account, "GABC"),
        other => panic!("unexpected {:?}", other),
    }
    assert_eq!(mgr.last_reserved("GABC"), None);
}

#[test]
fn rejected_release_reports_both_numbers_and_keeps_state() {
    let mut mgr = SequenceReservationManager::new();
    mgr.seed("GABC", 100);
    mgr.reserve_next("GABC").unwrap();
    mgr.reserve_next("GABC").unwrap();
    match mgr.release("GABC", 101) {
        Err(SyncEngineError::SequenceOutOfOrder { account, requested, last_reserved }) => {
            assert_eq!(account, "GABC");
            assert_eq!(requested, 101);
            assert_eq!(last_reserved, 102);
        }
        other => panic!("unexpected {:?}", other),
    }
    assert_eq!(mgr.last_reserved("GABC"), Some(102));
}

#[test]
fn missing_account_error_names_the_account() {
    let mut mgr = SequenceReservationManager::new();
    mgr.seed("GABC", 1);
    match mgr.reserve_next("GOTHER") {
        Err(SyncEngineError::NoSequenceReserved(account)) => assert_eq!(account, "GOTHER"),
        other => panic!("unexpected {:?}", other),
    }
    assert_eq!(mgr.last_reserved("GABC"), Some(1));
    assert_eq!(mgr.last_reserved("GOTHER"), None);
}

#[test]
fn reseeding_replaces_the_baseline() {
    let mut mgr = SequenceReservationManager::new();
    mgr.seed("GABC", 100);
    assert_eq!(mgr.reserve_next("GABC").unwrap(), 101);
    mgr.seed("GABC", 500);
    assert_eq!(mgr.last_reserved("GABC"), Some(500));
    assert_eq!(mgr.reserve_next("GABC").unwrap(), 501);
}

#[test]
fn reservations_count_up_from_negative_and_extreme_seeds() {
    let mut mgr = SequenceReservationManager::new();
    mgr.seed("GNEG", -2);
    assert_eq!(mgr.reserve_next("GNEG").unwrap(), -1);
    assert_eq!(mgr.reserve_next("GNEG").unwrap(), 0);
    mgr.seed("GMAX", i64::MAX - 1);
    assert_eq!(mgr.reserve_next("GMAX").unwrap(), i64::MAX);
    mgr.release("GMAX", i64::MAX).unwrap();
    assert_eq!(mgr.last_reserved("GMAX"), Some(i64::MAX - 1));
}

#[test]
fn reseeding_multisig_replaces_signers_and_threshold() {
    let mut registry = MultisigAccountRegistry::new();
    registry.seed("GM", vec![([1u8; 32], 1)], 1);
    registry.seed("GM", vec![([2u8; 32], 3)], 3);
    assert_eq!(registry.signer_weight("GM", &[1u8; 32]), None);
    assert_eq!(registry.signer_weight("GM", &[2u8; 32]), Some(3));
    assert_eq!(registry.threshold("GM"), Some(3));
}

#[test]
fn later_weight_for_same_signer_counts() {
    let mut registry = MultisigAccountRegistry::new();
    registry.seed("GM", vec![([1u8; 32], 1), ([2u8; 32], 2), ([1u8; 32], 5)], 4);
    assert_eq!(registry.signer_weight("GM", &[1u8; 32]), Some(5));
    assert_eq!(registry.signer_weight("GM", &[2u8; 32]), Some(2));
}

#[test]
fn multisig_accounts_are_independent() {
    let mut registry = MultisigAccountRegistry::new();
    registry.seed("GA", vec![([1u8; 32], 1)], 1);
    registry.seed("GB", vec![([2u8; 32], 2)], 7);
    assert_eq!(registry.signer_weight("GA", &[2u8; 32]), None);
    assert_eq!(registry.threshold("GA"), Some(1));
    assert_eq!(registry.threshold("GB"), Some(7));
    assert!(registry.is_known_signer("GB", &[2u8; 32]));
}
