use data_structure::linear::stack_raw::LinkStack;
use data_structure::stack::{brack_check, Stack};

#[test]
fn test_new_stack() {
    let stack: LinkStack<i32> = LinkStack::new();
    assert!(stack.is_empty());
    assert_eq!(stack.size(), 0);
}

#[test]
fn test_push_and_size() {
    let mut stack = LinkStack::new();
    stack.push(1);
    assert!(!stack.is_empty());
    assert_eq!(stack.size(), 1);

    stack.push(2);
    stack.push(3);
    assert_eq!(stack.size(), 3);
}

#[test]
fn test_pop_order() {
    let mut stack = LinkStack::new();
    stack.push(1);
    stack.push(2);
    stack.push(3);

    assert_eq!(stack.pop(), Some(3));
    assert_eq!(stack.pop(), Some(2));
    assert_eq!(stack.size(), 1);

    stack.push(4);
    assert_eq!(stack.pop(), Some(4));
    assert_eq!(stack.pop(), Some(1));
    assert_eq!(stack.pop(), None);
    assert!(stack.is_empty());
}

#[test]
fn test_pop_empty_stack() {
    let mut stack: LinkStack<String> = LinkStack::new();
    assert_eq!(stack.pop(), None);
}

#[test]
fn test_drop_behavior() {
    for _ in 0..1000 {
        let mut stack = LinkStack::new();
        for i in 0..1000 {
            stack.push(i);
        }
    }
}

#[test]
fn test_generic_data_types() {
    let mut string_stack = LinkStack::new();
    string_stack.push(String::from("hello"));
    string_stack.push(String::from("world"));
    assert_eq!(string_stack.pop(), Some(String::from("world")));

    let mut float_stack = LinkStack::new();
    float_stack.push(3.14);
    float_stack.push(2.71);
    assert_eq!(float_stack.pop(), Some(2.71));
}

#[test]
fn test2_stack() {
    let mut s = Stack::new(10);
    let mut is = s.is_empty();
    assert_eq!(true, is);
    s.push('Z');
    is = s.is_empty();
    assert_eq!(false, is);
    s.push('V');
    assert_eq!(s.len(), 2);
    assert_eq!('V', s.pop().unwrap());

    let mut s = Stack::new(5);
    s.push('A');
    s.push('B');
    assert_eq!(Ok(&'B'), s.peek());
    if let Ok(top) = s.peek_mut() {
        *top = 'C';
    }
    assert_eq!(Ok(&'C'), s.peek());
    assert_eq!('C', s.pop().unwrap());
    assert_eq!('A', s.pop().unwrap());
    assert_eq!(Err("此栈为空！"), s.peek());
    assert_eq!(Err("此栈为空！"), s.peek_mut());
}

#[test]
fn test_brack_check() {
    let s = String::from("(({[]}))");
    assert_eq!(true, brack_check(&s));
}

#[test]
fn stack_bound_is_respected() {
    let mut s = Stack::new(2);
    assert!(s.push('a'));
    assert!(s.push('b'));
    assert!(!s.push('c'));
    assert_eq!(s.len(), 2);
    assert_eq!(s.pop(), Ok('b'));
    assert_eq!(s.pop(), Ok('a'));
    assert_eq!(s.pop(), Err("此栈为空！"));
}

#[test]
fn brackets_mismatched_or_unclosed() {
    assert!(brack_check(&String::new()));
    assert!(brack_check(&String::from("()[]{}")));
    assert!(!brack_check(&String::from("(]")));
    assert!(!brack_check(&String::from("((")));
    assert!(!brack_check(&String::from(")")));
    assert!(!brack_check(&String::from("{[}]")));
    assert!(brack_check(&String::from("(a")));
    assert!(!brack_check(&String::from("a")));
}

#[test]
fn link_stack_drops_a_tall_stack() {
    let mut stack = LinkStack::new();
    for i in 0..200000u32 {
        stack.push(i);
    }
    assert_eq!(stack.size(), 200000);
    drop(stack);
}
