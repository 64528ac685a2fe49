use icn_economics::did::Did;
use icn_economics::emergency::{EmergencyCoordinator, EmergencyProtocol};
use icn_economics::error::CommonError;

#[test]
fn test_emergency_coordinator() {
    let mut coordinator = EmergencyCoordinator::new();
    let did = Did::from_str("did:test:user").unwrap();
    assert!(coordinator.is_operation_allowed(&did));
    coordinator.activate_protocol(EmergencyProtocol::GlobalFreeze).unwrap();
    assert!(!coordinator.is_operation_allowed(&did));
    coordinator.deactivate_protocol("global_freeze").unwrap();
    assert!(coordinator.is_operation_allowed(&did));
}

#[test]
fn account_freeze_blocks_only_its_accounts() {
    let mut coordinator = EmergencyCoordinator::new();
    let a = Did::from_str("did:test:a").unwrap();
    let b = Did::from_str("did:test:b").unwrap();
    coordinator.activate_protocol(EmergencyProtocol::AccountFreeze { accounts: vec![a.clone()] }).unwrap();
    assert!(!coordinator.is_operation_allowed(&a));
    assert!(coordinator.is_operation_allowed(&b));
    coordinator.activate_protocol(EmergencyProtocol::RateLimit { max_operations_per_hour: 1 }).unwrap();
    assert!(coordinator.is_operation_allowed(&b));
    assert!(coordinator.is_operation_allowed(&b));
    coordinator.deactivate_protocol("account_freeze").unwrap();
    assert!(coordinator.is_operation_allowed(&a));
}

#[test]
fn unknown_protocol_name_is_refused() {
    let mut coordinator = EmergencyCoordinator::new();
    assert!(matches!(coordinator.deactivate_protocol("rollback"), Err(CommonError::InvalidInputError(_))));
}
