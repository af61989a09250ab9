use tsc_core::gc::GarbageCollector;

#[test]
fn register_then_release_reclaims() {
    let mut gc = GarbageCollector::new();
    gc.alloc_object("x", 0);
    assert!(gc.decrement_ref("x"));
}

#[test]
fn release_of_unknown_id_is_a_noop() {
    let mut gc = GarbageCollector::new();
    assert!(!gc.decrement_ref("ghostly"));
    gc.alloc_object("x", 0);
    assert!(!gc.decrement_ref("y"));
    assert!(gc.decrement_ref("x"));
}

#[test]
fn double_release_returns_false() {
    let mut gc = GarbageCollector::new();
    gc.alloc_object("x", 0);
    assert!(gc.decrement_ref("x"));
    assert!(!gc.decrement_ref("x"));
}

#[test]
fn re_registering_a_name_replaces_its_record() {
    let mut gc = GarbageCollector::new();
    gc.alloc_object("x", 0);
    gc.alloc_object("x", 1);
    assert!(gc.decrement_ref("x"));
    assert!(!gc.decrement_ref("x"));
}
