use wal::queue::Queue;

#[test]
fn queue_push_back_pop_front() {
    let mut list = Queue::new();
    list.push_back(1);
    list.push_back(2);
    list.push_back(3);
    assert_eq!(list.len(), 3);
    assert_eq!(list.pop_front().unwrap(), 1);
    assert_eq!(list.pop_front().unwrap(), 2);
    assert_eq!(list.pop_front().unwrap(), 3);
    assert!(list.pop_front().is_none());
    assert_eq!(list.len(), 0);
}

#[test]
fn queue_fifo_order() {
    let mut q = Queue::new();
    q.push_back(1);
    q.push_back(2);
    q.push_back(3);
    assert_eq!(q.pop_front(), Some(1));
    assert_eq!(q.pop_front(), Some(2));
    assert_eq!(q.pop_front(), Some(3));
    assert_eq!(q.pop_front(), None);
}

#[test]
fn queue_empty_pop_is_no_element() {
    let mut q: Queue<u32> = Queue::new();
    assert_eq!(q.len(), 0);
    assert!(q.pop_front().is_none());
    assert!(q.pop_front().is_none());
    assert_eq!(q.len(), 0);
}

#[test]
fn queue_refill_after_drain() {
    let mut q = Queue::new();
    q.push_back(10);
    assert_eq!(q.pop_front(), Some(10));
    assert_eq!(q.pop_front(), None);
    q.push_back(20);
    q.push_back(30);
    assert_eq!(q.len(), 2);
    assert_eq!(q.pop_front(), Some(20));
    assert_eq!(q.pop_front(), Some(30));
    assert_eq!(q.pop_front(), None);
}
