use wm_handlers::pending::PendingChildRegistry;

#[test]
fn new_registry_is_empty() {
    let registry = PendingChildRegistry::new();
    assert!(registry.is_empty());
    assert_eq!(registry.len(), 0);
    assert_eq!(registry.first(), None);
    assert!(!registry.contains(1));
}

#[test]
fn children_are_held_in_order() {
    let mut registry = PendingChildRegistry::new();
    assert!(registry.register(30));
    assert!(registry.register(10));
    assert!(registry.register(20));
    assert_eq!(registry.len(), 3);
    assert_eq!(registry.first(), Some(30));
    assert!(registry.contains(10));
    assert!(!registry.contains(40));
}

#[test]
fn a_child_is_held_once() {
    let mut registry = PendingChildRegistry::new();
    assert!(registry.register(7));
    assert!(!registry.register(7));
    assert_eq!(registry.len(), 1);
}

#[test]
fn completing_takes_the_child_out() {
    let mut registry = PendingChildRegistry::new();
    registry.register(1);
    registry.register(2);
    registry.register(3);
    assert!(registry.complete(2));
    assert_eq!(registry.len(), 2);
    assert!(!registry.contains(2));
    assert_eq!(registry.first(), Some(1));
    assert!(registry.complete(1));
    assert_eq!(registry.first(), Some(3));
    assert!(registry.complete(3));
    assert!(registry.is_empty());
}

#[test]
fn completing_an_unknown_child_changes_nothing() {
    let mut registry = PendingChildRegistry::new();
    registry.register(1);
    assert!(!registry.complete(9));
    assert_eq!(registry.len(), 1);
    assert!(registry.contains(1));
}

#[test]
fn a_completed_child_can_be_registered_again() {
    let mut registry = PendingChildRegistry::new();
    registry.register(5);
    registry.complete(5);
    assert!(registry.register(5));
    assert_eq!(registry.first(), Some(5));
}
