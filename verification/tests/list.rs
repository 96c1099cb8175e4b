use wal::LinkedList;

#[test]
fn push_front() {
    let mut list = LinkedList::new();
    list.push_front(1);
    list.push_front(2);
    list.push_front(3);
    assert_eq!(list.pop_front(), Some(3));
    assert_eq!(list.pop_front(), Some(2));
    assert_eq!(list.pop_front(), Some(1));
}

#[test]
fn list_empty_pop_is_no_element() {
    let mut list: LinkedList<u32> = LinkedList::new();
    assert_eq!(list.pop_front(), None);
    assert_eq!(list.pop_front(), None);
}

#[test]
fn list_lifo_order_with_refill() {
    let mut list = LinkedList::new();
    list.push_front(1);
    assert_eq!(list.pop_front(), Some(1));
    assert_eq!(list.pop_front(), None);
    list.push_front(2);
    list.push_front(3);
    assert_eq!(list.pop_front(), Some(3));
    list.push_front(4);
    assert_eq!(list.pop_front(), Some(4));
    assert_eq!(list.pop_front(), Some(2));
    assert_eq!(list.pop_front(), None);
}
