use picojson::bitstack::{ArrayBitBucket, BitBucket, DepthCounter};

#[test]
fn mod_test_bitstack() {
    let mut bitstack = 0u32;
    bitstack.push(true);
    bitstack.push(false);
    assert!(!bitstack.pop());
    assert!(bitstack.pop());
}

#[test]
fn mod_test_array_bitstack() {
    // Test ArrayBitStack with 2 u8 elements (16-bit total capacity)
    let mut bitstack: ArrayBitBucket<2, u8> = ArrayBitBucket::default();

    // Test basic push/pop operations
    bitstack.push(true);
    bitstack.push(false);
    bitstack.push(true);

    // Verify top() doesn't modify stack
    assert!(bitstack.top());
    assert!(bitstack.top());

    // Verify LIFO order
    assert!(bitstack.pop());
    assert!(!bitstack.pop());
    assert!(bitstack.pop());
}

#[test]
fn mod_test_array_bitstack_large_capacity() {
    // Test larger ArrayBitStack (320-bit capacity with 10 u32 elements)
    let mut bitstack: ArrayBitBucket<10, u32> = ArrayBitBucket::default();

    // Push many bits to test multi-element handling
    let pattern = [true, false, true, true, false, false, true, false];
    for &bit in &pattern {
        bitstack.push(bit);
    }

    // Pop and verify reverse order (LIFO)
    for &expected in pattern.iter().rev() {
        assert_eq!(bitstack.pop(), expected);
    }
}

#[test]
fn mod_test_element_size_handling() {
    // Test that bitstack correctly handles different element sizes

    // Test u8 elements (8-bit each)
    let mut bitstack_u8: ArrayBitBucket<1, u8> = ArrayBitBucket::default();

    // Fill all 8 bits of a u8 element
    for i in 0..8 {
        bitstack_u8.push(i % 2 == 0); // alternating pattern: true, false, true, false...
    }

    // Verify we can retrieve all 8 bits in LIFO order
    for i in (0..8).rev() {
        assert_eq!(bitstack_u8.pop(), i % 2 == 0);
    }

    // Test u32 elements (32-bit each)
    let mut bitstack_u32: ArrayBitBucket<1, u32> = ArrayBitBucket::default();

    // Fill all 32 bits of a u32 element
    for i in 0..32 {
        bitstack_u32.push(i % 3 == 0); // pattern: true, false, false, true, false, false...
    }

    // Verify we can retrieve all 32 bits in LIFO order
    for i in (0..32).rev() {
        assert_eq!(bitstack_u32.pop(), i % 3 == 0);
    }
}

#[test]
fn test_array_bitstack_basic_moved() {
    // Test ArrayBitStack with 2 u8 elements (16-bit total capacity)
    let mut bitstack: ArrayBitBucket<2, u8> = ArrayBitBucket::default();

    // Test basic push/pop operations
    bitstack.push(true);
    bitstack.push(false);
    bitstack.push(true);

    // Verify top() doesn't modify stack
    assert!(bitstack.top());
    assert!(bitstack.top());

    // Verify LIFO order
    assert!(bitstack.pop());
    assert!(!bitstack.pop());
    assert!(bitstack.pop());
}

#[test]
fn test_array_bitstack_large_capacity_moved() {
    // Test larger ArrayBitStack (320-bit capacity with 10 u32 elements)
    let mut bitstack: ArrayBitBucket<10, u32> = ArrayBitBucket::default();

    // Push many bits to test multi-element handling
    let pattern = [true, false, true, true, false, false, true, false];
    for &bit in &pattern {
        bitstack.push(bit);
    }

    // Pop and verify reverse order (LIFO)
    for &expected in pattern.iter().rev() {
        assert_eq!(bitstack.pop(), expected);
    }
}

#[test]
fn test_array_bitstack_element_overflow_moved() {
    // Test ArrayBitStack with 2 u8 elements to verify cross-element operations
    let mut bitstack: ArrayBitBucket<2, u8> = ArrayBitBucket::default();

    // Push more than 8 bits to force usage of multiple elements
    let bits = [
        true, false, true, false, true, false, true, false, true, true,
    ];
    for &bit in &bits {
        bitstack.push(bit);
    }

    // Pop all bits and verify order
    for &expected in bits.iter().rev() {
        assert_eq!(bitstack.pop(), expected);
    }
}

#[test]
fn test_array_bitstack_empty_behavior_moved() {
    // Test behavior when popping from an empty ArrayBitStack
    // With the new API, empty stacks return false (no depth tracking needed)
    let mut bitstack: ArrayBitBucket<2, u8> = ArrayBitBucket::default();

    // CURRENT BEHAVIOR: Empty stack returns false (was Some(false) before API change)
    // This behavior is now the intended design - no depth tracking needed
    assert!(!bitstack.pop(), "Empty stack returns false");
    assert!(!bitstack.top(), "Empty stack top() returns false");

    // Test that underflow doesn't panic (at least it's safe)
    assert!(!bitstack.pop(), "Multiple underflow calls don't panic");
    assert!(!bitstack.pop(), "Multiple underflow calls don't panic");
}

#[test]
fn test_array_bitstack_underflow_does_not_panic_moved() {
    // Test that multiple underflow attempts are safe (don't panic)
    // This is important for robustness even with the current incorrect API
    let mut bitstack: ArrayBitBucket<1, u8> = ArrayBitBucket::default();

    // Multiple calls to pop() on empty stack should not panic
    for i in 0..5 {
        let result = bitstack.pop();
        // With new API, just ensure it doesn't panic and returns a bool
        assert!(
            !result,
            "Empty ArrayBitStack pop() attempt {} should return false",
            i + 1
        );

        let top_result = bitstack.top();
        assert!(
            !top_result,
            "Empty ArrayBitStack top() attempt {} should return false",
            i + 1
        );
    }
}

#[test]
fn bitstack_push_pop_law_on_u8() {
    let mut b = 0b1010u8;
    b.push(true);
    assert!(b.top());
    assert!(b.pop());
    assert_eq!(b, 0b1010u8);
}

#[test]
fn depth_counter_limits() {
    let (z, overflow) = u8::zero().increment();
    assert_eq!(z, 1);
    assert!(!overflow);
    let (m, overflow) = 255u8.increment();
    assert!(overflow);
    let _ = m;
    let (d, underflow) = 0u8.decrement();
    assert!(underflow);
    let _ = d;
    assert!(0u8.is_zero());
}

#[test]
fn bitstack_push_pop_many_law_on_u8() {
    let bits = [true, false, true, true, false, false, true, true];
    let mut bucket = 0u8;
    for b in bits {
        bucket.push(b);
    }
    for b in bits.iter().rev() {
        assert_eq!(bucket.pop(), *b);
    }
    assert_eq!(bucket, 0u8);
}

#[test]
fn test_bitstack() {
    let mut bitstack = 0u32;
    bitstack.push(true);
    bitstack.push(false);
    assert_eq!(bitstack.pop(), false);
    assert_eq!(bitstack.pop(), true);
}

#[test]
fn test_array_bitstack() {
    // 2 u8 elements: 16 bits in all
    let mut bitstack: ArrayBitBucket<2, u8> = ArrayBitBucket::default();

    bitstack.push(true);
    bitstack.push(false);
    bitstack.push(true);

    // top() leaves the stack as it is
    assert_eq!(bitstack.top(), true);
    assert_eq!(bitstack.top(), true);

    // last in, first out
    assert_eq!(bitstack.pop(), true);
    assert_eq!(bitstack.pop(), false);
    assert_eq!(bitstack.pop(), true);
}

#[test]
fn test_array_bitstack_large_capacity() {
    // 10 u32 elements: 320 bits in all
    let mut bitstack: ArrayBitBucket<10, u32> = ArrayBitBucket::default();

    let pattern = [true, false, true, true, false, false, true, false];
    for &bit in &pattern {
        bitstack.push(bit);
    }

    for &expected in pattern.iter().rev() {
        assert_eq!(bitstack.pop(), expected);
    }
}

#[test]
fn test_element_size_handling() {
    // u8 elements: all 8 bits of one element
    let mut bitstack_u8: ArrayBitBucket<1, u8> = ArrayBitBucket::default();
    for i in 0..8 {
        bitstack_u8.push(i % 2 == 0);
    }
    for i in (0..8).rev() {
        assert_eq!(bitstack_u8.pop(), i % 2 == 0);
    }

    // u32 elements: all 32 bits of one element
    let mut bitstack_u32: ArrayBitBucket<1, u32> = ArrayBitBucket::default();
    for i in 0..32 {
        bitstack_u32.push(i % 3 == 0);
    }
    for i in (0..32).rev() {
        assert_eq!(bitstack_u32.pop(), i % 3 == 0);
    }
}
