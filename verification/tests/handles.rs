use pyfmu_wrapper::registry::SlaveRegistry;

#[test]
fn handles_start_at_zero_and_stay_distinct() {
    let mut reg = SlaveRegistry::new();
    let h0 = reg.get_free_handle();
    let h1 = reg.get_free_handle();
    let h2 = reg.get_free_handle();
    assert_eq!(h0, 0);
    assert_eq!(h1, 1);
    assert_eq!(h2, 2);
    assert_ne!(h0, h1);
    assert_ne!(h1, h2);
    assert_ne!(h0, h2);
    assert_eq!(reg.active_count(), 3);
    assert!(reg.contains_handle(0));
    assert!(reg.contains_handle(1));
    assert!(reg.contains_handle(2));
}

#[test]
fn freed_handle_is_reused() {
    let mut reg = SlaveRegistry::new();
    assert_eq!(reg.get_free_handle(), 0);
    assert_eq!(reg.get_free_handle(), 1);
    assert_eq!(reg.get_free_handle(), 2);
    reg.release_handle(1);
    assert!(!reg.contains_handle(1));
    // The lowest free handle is the freed one.
    assert_eq!(reg.get_free_handle(), 1);
    assert!(reg.contains_handle(1));
    // With nothing freed, allocation continues upward.
    assert_eq!(reg.get_free_handle(), 3);
}

#[test]
fn releasing_an_unknown_handle_changes_nothing() {
    let mut reg = SlaveRegistry::new();
    assert_eq!(reg.get_free_handle(), 0);
    reg.release_handle(7);
    assert_eq!(reg.active_count(), 1);
    assert!(reg.contains_handle(0));
    assert!(!reg.contains_handle(7));
}

#[test]
fn aborted_allocation_leaves_no_trace() {
    let mut reg = SlaveRegistry::new();
    assert_eq!(reg.get_free_handle(), 0);
    assert_eq!(reg.get_free_handle(), 1);
    // A failed instantiation allocates and then releases its handle.
    let h = reg.get_free_handle();
    assert_eq!(h, 2);
    reg.release_handle(h);
    assert_eq!(reg.active_count(), 2);
    assert!(reg.contains_handle(0));
    assert!(reg.contains_handle(1));
    assert!(!reg.contains_handle(2));
    // The next instantiation sees the same registry as before the failure.
    assert_eq!(reg.get_free_handle(), 2);
}
