use data_structure::linear::queue::Queue;

#[test]
fn test_queue_operations() {
    let mut queue: Queue<i32, 3> = Queue::new();

    assert!(queue.is_empty());
    assert_eq!(queue.pop(), None);

    assert_eq!(queue.capacity(), 2);

    assert!(queue.push(1).is_ok());
    assert!(!queue.is_empty());
    assert!(queue.push(2).is_ok());

    assert!(queue.push(3).is_err());

    assert_eq!(queue.pop(), Some(1));
    assert_eq!(queue.pop(), Some(2));
    assert!(queue.pop().is_none());

    assert!(queue.push(3).is_ok());
    assert!(queue.push(4).is_ok());

    assert!(queue.push(5).is_err());

    assert_eq!(queue.pop(), Some(3));
    assert_eq!(queue.pop(), Some(4));
    assert!(queue.pop().is_none());
    assert!(queue.is_empty());
}

#[test]
fn test_queue_full_and_empty() {
    let mut queue: Queue<i32, 2> = Queue::new();

    assert!(queue.push(1).is_ok());
    assert!(queue.push(2).is_err());

    assert_eq!(queue.pop(), Some(1));
    assert!(queue.pop().is_none());

    assert!(queue.push(4).is_ok());
    assert!(queue.push(5).is_err());
}

#[test]
fn queue_wraps_around_many_times() {
    let mut queue: Queue<u32, 4> = Queue::new();
    for k in 0..20u32 {
        assert_eq!(queue.push(k), Ok(()));
        assert_eq!(queue.push(k + 100), Ok(()));
        assert_eq!(queue.pop(), Some(k));
        assert_eq!(queue.pop(), Some(k + 100));
    }
    assert_eq!(queue.push(1), Ok(()));
    assert_eq!(queue.push(2), Ok(()));
    assert_eq!(queue.push(3), Ok(()));
    assert_eq!(queue.push(4), Err("queue is full"));
    assert_eq!(queue.capacity(), 3);
}
