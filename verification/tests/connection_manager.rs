use ws_bridge::connection_manager::ConnectionManager;

#[test]
fn a_new_registry_is_empty() {
    let registry: ConnectionManager<u32> = ConnectionManager::new();
    assert!(registry.is_empty());
    assert_eq!(registry.len(), 0);
    assert!(!registry.contains(1));
    assert_eq!(registry.get(1), None);
    let registry: ConnectionManager<u32> = ConnectionManager::default();
    assert!(registry.is_empty());
}

#[test]
fn a_registered_session_is_found_under_its_identifier() {
    let mut registry = ConnectionManager::new();
    registry.register(7, "seven".to_string());
    registry.register(9, "nine".to_string());
    assert_eq!(registry.len(), 2);
    assert!(!registry.is_empty());
    assert!(registry.contains(7));
    assert!(registry.contains(9));
    assert!(!registry.contains(8));
    assert_eq!(registry.get(7), Some(&"seven".to_string()));
    assert_eq!(registry.get(9), Some(&"nine".to_string()));
}

#[test]
fn deregistering_removes_only_that_session() {
    let mut registry = ConnectionManager::new();
    registry.register(7, 70u32);
    registry.register(9, 90u32);
    assert_eq!(registry.deregister(7), Some(70));
    assert!(!registry.contains(7));
    assert_eq!(registry.get(9), Some(&90));
    assert_eq!(registry.len(), 1);
}

#[test]
fn deregistering_twice_is_the_same_as_once() {
    let mut registry = ConnectionManager::new();
    registry.register(7, 70u32);
    registry.register(9, 90u32);
    assert_eq!(registry.deregister(7), Some(70));
    assert_eq!(registry.deregister(7), None);
    assert_eq!(registry.len(), 1);
    assert!(registry.contains(9));
    assert!(!registry.contains(7));
}

#[test]
fn deregistering_an_unknown_session_changes_nothing() {
    let mut registry = ConnectionManager::new();
    registry.register(9, 90u32);
    assert_eq!(registry.deregister(1234), None);
    assert_eq!(registry.len(), 1);
    assert_eq!(registry.get(9), Some(&90));
    let mut empty: ConnectionManager<u32> = ConnectionManager::new();
    assert_eq!(empty.deregister(1), None);
    assert!(empty.is_empty());
}

#[test]
fn an_identifier_never_has_two_entries() {
    let mut registry = ConnectionManager::new();
    registry.register(7, 1u32);
    registry.register(7, 2u32);
    assert_eq!(registry.len(), 1);
    assert_eq!(registry.get(7), Some(&2));
    assert_eq!(registry.deregister(7), Some(2));
    assert!(registry.is_empty());
}

#[test]
fn the_full_range_of_identifiers_is_usable() {
    let mut registry = ConnectionManager::new();
    registry.register(0, 'a');
    registry.register(u128::MAX, 'z');
    assert_eq!(registry.get(0), Some(&'a'));
    assert_eq!(registry.get(u128::MAX), Some(&'z'));
    assert_eq!(registry.deregister(u128::MAX), Some('z'));
    assert_eq!(registry.len(), 1);
}
