use stackvm::stack::Stack;
use stackvm::stack::STACK_CAPACITY;

#[test]
fn stack_new_is_empty() {
    let s: Stack<i16> = Stack::new();
    assert!(s.is_empty());
    assert_eq!(s.size(), 0);
    assert!(!s.is_full());
}

#[test]
fn stack_push_pop_lifo() {
    let mut s: Stack<i16> = Stack::new();
    s.push(1);
    s.push(2);
    s.push(3);
    assert_eq!(s.size(), 3);
    assert_eq!(s.pop(), 3);
    assert_eq!(s.pop(), 2);
    assert_eq!(s.pop(), 1);
    assert!(s.is_empty());
}

#[test]
fn stack_is_full_at_capacity() {
    let mut s: Stack<i16> = Stack::new();
    for i in 0..STACK_CAPACITY {
        assert!(!s.is_full());
        s.push(i as i16);
    }
    assert!(s.is_full());
    assert_eq!(s.size(), STACK_CAPACITY);
}
