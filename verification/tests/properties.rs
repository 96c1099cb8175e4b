use wal::deque::LinkedList;
use wal::queue::Queue;

// Two producers' distinct batches, interleaved at both ends: the multiset
// drained out equals exactly the multiset pushed in.
#[test]
fn no_loss_no_duplication() {
    let mut d = LinkedList::new();
    let batch_a = [1, 2, 3, 4, 5];
    let batch_b = [6, 7, 8, 9, 10];
    for k in 0..5 {
        d.push_back(batch_a[k]);
        d.push_front(batch_b[k]);
    }
    assert_eq!(d.len(), 10);
    let mut drained = Vec::new();
    loop {
        match d.pop_front() {
            Some(v) => drained.push(v),
            None => break,
        }
    }
    assert_eq!(d.len(), 0);
    drained.sort();
    assert_eq!(drained, vec![1, 2, 3, 4, 5, 6, 7, 8, 9, 10]);
}

// One caller's pushes at the back are drained front-first in push order,
// whatever else was pushed at the other end in between.
#[test]
fn program_order_preserved() {
    let mut d = LinkedList::new();
    d.push_back(10);
    d.push_front(-1);
    d.push_back(20);
    d.push_front(-2);
    d.push_back(30);
    let mut drained = Vec::new();
    loop {
        match d.pop_front() {
            Some(v) => drained.push(v),
            None => break,
        }
    }
    let own: Vec<i32> = drained.iter().copied().filter(|v| *v > 0).collect();
    assert_eq!(own, vec![10, 20, 30]);
}

// Deque cross-end consistency: push_back(1), push_back(2), pop_front is 1,
// pop_back is 2, length 0, and both ends then report no element.
#[test]
fn deque_cross_end() {
    let mut d = LinkedList::new();
    d.push_back(1);
    d.push_back(2);
    assert_eq!(d.pop_front(), Some(1));
    assert_eq!(d.pop_back(), Some(2));
    assert_eq!(d.len(), 0);
    assert_eq!(d.pop_front(), None);
    assert_eq!(d.pop_back(), None);
}

// Length accounting: at every quiescent point, len() equals pushes minus
// successful pops.
#[test]
fn length_accounting() {
    let mut q = Queue::new();
    assert_eq!(q.len(), 0);
    q.push_back(1);
    q.push_back(2);
    q.push_back(3);
    assert_eq!(q.len(), 3);
    assert!(q.pop_front().is_some());
    assert_eq!(q.len(), 2);
    q.push_back(4);
    assert_eq!(q.len(), 3);
    assert!(q.pop_front().is_some());
    assert!(q.pop_front().is_some());
    assert!(q.pop_front().is_some());
    assert_eq!(q.len(), 0);
    assert!(q.pop_front().is_none());
    assert_eq!(q.len(), 0);
}

// Alternating ends around the dummy: the dummy migrates between the ends and
// every element still comes out exactly once, in deque order.
#[test]
fn deque_alternating_ends() {
    let mut d = LinkedList::new();
    d.push_front(2);
    d.push_back(3);
    d.push_front(1);
    d.push_back(4);
    assert_eq!(d.len(), 4);
    assert_eq!(d.pop_back(), Some(4));
    assert_eq!(d.pop_front(), Some(1));
    assert_eq!(d.pop_back(), Some(3));
    assert_eq!(d.pop_front(), Some(2));
    assert_eq!(d.pop_back(), None);
    assert_eq!(d.pop_front(), None);
    assert_eq!(d.len(), 0);
}

// A long pseudo-random run of pushes and pops at both ends agrees with the
// standard double-ended queue at every step and drains to empty.
#[test]
fn mixed_ops_match_model() {
    let mut d = LinkedList::new();
    let mut model: std::collections::VecDeque<u64> = std::collections::VecDeque::new();
    let mut x: u64 = 12345;
    for step in 0..1000u64 {
        x = x.wrapping_mul(6364136223846793005).wrapping_add(1442695040888963407);
        match x % 5 {
            0 => {
                d.push_back(step);
                model.push_back(step);
            }
            1 => {
                d.push_front(step);
                model.push_front(step);
            }
            2 => {
                assert_eq!(d.pop_front(), model.pop_front());
            }
            3 => {
                assert_eq!(d.pop_back(), model.pop_back());
            }
            _ => {
                assert_eq!(d.len(), model.len());
            }
        }
    }
    while let Some(v) = model.pop_front() {
        assert_eq!(d.pop_front(), Some(v));
    }
    assert_eq!(d.pop_front(), None);
    assert_eq!(d.len(), 0);
}

// The payload type is generic: owned values move in and out intact.
#[test]
fn deque_owned_payloads() {
    let mut d = LinkedList::new();
    d.push_back(String::from("first"));
    d.push_back(String::from("second"));
    d.push_front(String::from("zeroth"));
    assert_eq!(d.pop_front().unwrap(), "zeroth");
    assert_eq!(d.pop_back().unwrap(), "second");
    assert_eq!(d.pop_front().unwrap(), "first");
    assert!(d.pop_front().is_none());
}
