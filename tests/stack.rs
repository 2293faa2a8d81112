use vmrs::{Stack, StackError, STACK_CAPACITY};

#[test]
fn test_new_stack() {
    let stack: Stack = Stack::new();
    assert_eq!(stack.len(), 0);
}

#[test]
fn test_push_and_pop() {
    let mut stack = Stack::new();
    assert!(stack.push(10).is_ok());
    assert_eq!(stack.pop().unwrap(), 10);
}

#[test]
fn test_stack_overflow() {
    let mut stack = Stack::new();
    for _ in 0..STACK_CAPACITY {
        assert!(stack.push(10).is_ok());
    }
    assert!(stack.push(10).is_err());
}

#[test]
fn test_stack_underflow() {
    let mut stack = Stack::new();
    assert!(stack.pop().is_err());
}

#[test]
fn test_display_stack() {
    let mut stack = Stack::new();
    stack.push(10).unwrap();
    stack.push(20).unwrap();
    stack.push(30).unwrap();
    let display_format = stack.to_string();
    assert_eq!(display_format, "30 -> 20 -> 10 -> None");
}

#[test]
fn test_display_empty_stack() {
    let mut stack = Stack::new();
    stack.push(10).unwrap();
    stack.push(20).unwrap();
    stack.push(30).unwrap();
    stack.pop().unwrap();
    stack.pop().unwrap();
    stack.pop().unwrap();
    let display_format = stack.to_string();
    assert_eq!(display_format, "None");
}

#[test]
fn display_negative_words() {
    let mut stack = Stack::new();
    stack.push(-32768).unwrap();
    stack.push(0).unwrap();
    assert_eq!(stack.to_string(), "0 -> -32768 -> None");
}

#[test]
fn lifo_order_at_full_capacity() {
    let mut stack = Stack::new();
    for i in 0..STACK_CAPACITY {
        stack.push(i as i16).unwrap();
    }
    for i in (0..STACK_CAPACITY).rev() {
        assert_eq!(stack.pop(), Ok(i as i16));
    }
    assert_eq!(stack.pop(), Err(StackError::Underflow));
}

#[test]
fn overflow_leaves_stack_unchanged() {
    let mut stack = Stack::new();
    for i in 0..STACK_CAPACITY {
        stack.push(i as i16).unwrap();
    }
    assert_eq!(stack.push(7), Err(StackError::Overflow));
    assert_eq!(stack.len(), STACK_CAPACITY);
    assert_eq!(stack.head(), Ok(1023));
}

#[test]
fn head_does_not_pop() {
    let mut stack = Stack::new();
    assert_eq!(stack.head(), Err(StackError::Underflow));
    stack.push(4).unwrap();
    stack.push(9).unwrap();
    assert_eq!(stack.head(), Ok(9));
    assert_eq!(stack.len(), 2);
}
