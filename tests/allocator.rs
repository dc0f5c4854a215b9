use ox_content::allocator::Allocator;

#[test]
fn test_allocator_creation() {
    let allocator = Allocator::new();
    assert_eq!(allocator.allocated_bytes(), 0);
}

#[test]
fn test_alloc_value() {
    let mut allocator = Allocator::new();
    let value = allocator.alloc_value(42);
    assert_eq!(*value, 42);
}

#[test]
fn test_alloc_str() {
    let mut allocator = Allocator::new();
    let s = allocator.alloc_str("hello");
    assert_eq!(s, "hello");
}

#[test]
fn test_arena_vec() {
    let allocator = Allocator::new();
    let mut vec = allocator.new_vec();
    vec.push(1);
    vec.push(2);
    vec.push(3);
    assert_eq!(vec.as_slice(), &[1, 2, 3]);
}

#[test]
fn test_arena_string() {
    let allocator = Allocator::new();
    let mut s = allocator.new_string();
    s.push_str("hello");
    s.push_str(" world");
    assert_eq!(s.as_str(), "hello world");
}

#[test]
fn reset_brings_count_to_zero() {
    let mut allocator = Allocator::with_capacity(64);
    assert_eq!(allocator.alloc_str("abc").len(), 3);
    assert_eq!(allocator.allocated_bytes(), 3);
    let _ = allocator.alloc_value(7u64);
    assert_eq!(allocator.allocated_bytes(), 11);
    allocator.reset();
    assert_eq!(allocator.allocated_bytes(), 0);
    assert_eq!(allocator.alloc_str("xyz"), "xyz");
}

#[test]
fn arena_with_capacity_and_from() {
    let mut allocator = Allocator::new();
    assert_eq!(allocator.new_string_from("abc").as_str(), "abc");
    assert_eq!(allocator.allocated_bytes(), 3);
    let mut v = allocator.new_vec_with_capacity::<u8>(4);
    v.push(7);
    assert_eq!(v.len(), 1);
    let _ = allocator.bump();
}
