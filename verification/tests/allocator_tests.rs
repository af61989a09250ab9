use tsc_core::arena::Allocator;

#[test]
fn test_api() {
    let mut allocator = Allocator::new();
    {
        let array = allocator.alloc_value([123; 10]);
        assert_eq!(array, &[123; 10]);
        let str = allocator.alloc_str("hello");
        assert_eq!(str, "hello");
    }
    allocator.reset();
}

#[test]
fn reset_makes_the_arena_fresh() {
    // Allocating values, resetting, then reusing the same identifiers must
    // produce fresh, independent storage.
    let mut allocator = Allocator::with_capacity(64);
    {
        let a = allocator.alloc_value(1u64);
        let b = allocator.alloc_value(2u64);
        assert_eq!(*a, 1);
        assert_eq!(*b, 2);
    }
    allocator.reset();
    {
        let a = allocator.alloc_value(41u64);
        let b = allocator.alloc_value(43u64);
        assert_eq!(*a, 41);
        assert_eq!(*b, 43);
        assert_ne!(*a, *b);
    }
}

#[test]
fn strings_are_copied_into_the_arena() {
    let allocator = Allocator::new();
    let owned = String::from("transient");
    let copied = allocator.alloc_str(&owned);
    drop(owned);
    assert_eq!(copied, "transient");
}

#[test]
fn usage_reporting_is_observable() {
    let mut allocator = Allocator::new();
    let _ = allocator.alloc_value([7u8; 32]);
    assert!(allocator.capacity() >= 32);
    assert!(allocator.used_bytes() >= 32);
}
