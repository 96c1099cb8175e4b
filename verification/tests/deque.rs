use wal::deque::LinkedList;

#[test]
fn push_front_1() {
    let mut list = LinkedList::new();
    list.push_front(1);
    assert_eq!(list.len(), 1);
}

#[test]
fn push_back_1() {
    let mut list = LinkedList::new();
    list.push_back(1);
    assert_eq!(list.len(), 1);
}

#[test]
fn push_front_2() {
    let mut list = LinkedList::new();
    list.push_front(1);
    list.push_front(1);
    assert_eq!(list.len(), 2);
}

#[test]
fn push_back_2() {
    let mut list = LinkedList::new();
    list.push_back(1);
    list.push_back(1);
    assert_eq!(list.len(), 2);
}

#[test]
fn push_pop_back() {
    let mut list = LinkedList::new();
    list.push_back(1);
    list.push_back(2);
    assert_eq!(list.len(), 2);
    assert_eq!(list.pop_back().unwrap(), 2);
    assert_eq!(list.pop_back().unwrap(), 1);
    assert_eq!(list.len(), 0);
    assert!(list.pop_back().is_none());
}

#[test]
fn push_pop_front() {
    let mut list = LinkedList::new();
    list.push_front(1);
    list.push_front(2);
    assert_eq!(list.len(), 2);
    assert_eq!(list.pop_front().unwrap(), 2);
    assert_eq!(list.pop_front().unwrap(), 1);
    assert_eq!(list.len(), 0);
    assert!(list.pop_front().is_none());
}

#[test]
fn push_front_pop_back() {
    let mut list = LinkedList::new();
    list.push_front(1);
    list.push_front(2);
    assert_eq!(list.pop_back().unwrap(), 1);
    assert_eq!(list.pop_back().unwrap(), 2);
    assert!(list.pop_back().is_none());
}

#[test]
fn doubly_push_back_pop_front() {
    let mut list = LinkedList::new();
    list.push_back(1);
    list.push_back(2);
    assert_eq!(list.pop_front().unwrap(), 1);
    assert_eq!(list.pop_front().unwrap(), 2);
    assert!(list.pop_front().is_none());
}

#[test]
fn doubly_new_push_back_pop_front() {
    let mut list = LinkedList::new();
    list.push_back(1);
    list.push_back(2);
    list.push_back(3);
    assert_eq!(list.len(), 3);
    assert_eq!(list.pop_front().unwrap(), 1);
    assert_eq!(list.pop_front().unwrap(), 2);
    assert_eq!(list.pop_front().unwrap(), 3);
    assert!(list.pop_front().is_none());
    assert_eq!(list.len(), 0);
}

#[test]
fn push_front_pop_front() {
    let mut list = LinkedList::new();
    list.push_front(1);
    list.push_front(2);
    list.push_front(3);
    assert_eq!(list.len(), 3);
    assert_eq!(list.pop_front().unwrap(), 3);
    assert_eq!(list.pop_front().unwrap(), 2);
    assert_eq!(list.pop_front().unwrap(), 1);
    assert_eq!(list.len(), 0);
}

#[test]
fn push_back_pop_back() {
    let mut list = LinkedList::new();
    list.push_back(1);
    list.push_back(2);
    list.push_back(3);
    assert_eq!(list.len(), 3);
    assert_eq!(list.pop_back().unwrap(), 3);
    assert_eq!(list.pop_back().unwrap(), 2);
    assert_eq!(list.pop_back().unwrap(), 1);
    assert!(list.pop_back().is_none());
    assert_eq!(list.len(), 0);
}

#[test]
fn push_back_pop_front_temp() {
    let mut list = LinkedList::new();
    list.push_back(1);
    list.push_back(2);
    assert_eq!(list.pop_front().unwrap(), 1);
    assert_eq!(list.pop_front().unwrap(), 2);
}

#[test]
fn push_front_pop_back_temp() {
    let mut list = LinkedList::new();
    list.push_front(1);
    list.push_front(2);
    assert_eq!(list.pop_back().unwrap(), 1);
    assert_eq!(list.pop_back().unwrap(), 2);
}
