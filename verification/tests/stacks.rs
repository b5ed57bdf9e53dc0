use viperstem::utils::stacks::Stack;

#[test]
fn push_then_pop_returns_values_in_reverse() {
    let mut s: Stack<u32> = Stack::new();
    assert!(!s.has_val());
    s.push(1);
    s.push(2);
    s.push(3);
    assert!(s.has_val());
    assert_eq!(s.pop(), 3);
    assert_eq!(s.pop(), 2);
    s.push(9);
    assert_eq!(s.pop(), 9);
    assert_eq!(s.pop(), 1);
    assert!(!s.has_val());
}

#[test]
fn clear_empties_the_stack() {
    let mut s: Stack<u8> = Stack::new();
    for i in 0..10u8 {
        s.push(i);
    }
    s.clear();
    assert!(!s.has_val());
    s.push(42);
    assert_eq!(s.pop(), 42);
    assert!(!s.has_val());
}

#[test]
fn stack_holds_its_full_capacity() {
    let mut s: Stack<usize> = Stack::new();
    for i in 0..128 {
        s.push(i);
    }
    for i in (0..128).rev() {
        assert_eq!(s.pop(), i);
    }
    assert!(!s.has_val());
}
