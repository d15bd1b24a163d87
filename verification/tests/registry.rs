use cargo_cult::registry::Registry;

#[test]
fn sessions_are_numbered_in_order() {
    let mut registry = Registry::new();
    assert_eq!(registry.count(), 0);
    assert_eq!(registry.open_session(), Some(0));
    assert_eq!(registry.open_session(), Some(1));
    assert_eq!(registry.open_session(), Some(2));
    assert_eq!(registry.count(), 3);
    assert!(registry.is_open(1));
    assert!(!registry.is_open(3));
}

#[test]
fn closing_a_session_leaves_the_others() {
    let mut registry = Registry::new();
    for _ in 0..3 {
        registry.open_session();
    }
    assert!(registry.close_session(1));
    assert!(!registry.is_open(1));
    assert!(registry.is_open(0));
    assert!(registry.is_open(2));
    assert_eq!(registry.count(), 2);
}

#[test]
fn a_session_is_closed_once() {
    let mut registry = Registry::new();
    registry.open_session();
    assert!(registry.close_session(0));
    assert!(!registry.close_session(0));
    assert!(!registry.close_session(7));
    assert_eq!(registry.count(), 0);
}

#[test]
fn numbers_are_not_given_out_again() {
    let mut registry = Registry::new();
    registry.open_session();
    registry.close_session(0);
    assert_eq!(registry.open_session(), Some(1));
}
