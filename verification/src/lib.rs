//! Linked-structure primitives over an explicit deferred-reclamation arena:
//! a singly-linked stack-like list, a doubly-linked deque, and a FIFO queue.
//!
//! The deque and the queue share one sentinel-anchored core: a chain of
//! arena-held nodes in which exactly one node, the dummy, carries no payload.
//! A pop consumes a payload and retires the node it unlinks; a push links a
//! fresh node at an end. The arena (`collector::Collector`) owns every node,
//! so a retired node is reclaimed exactly once and can never be read again.

use vstd::prelude::*;

pub mod chain;
pub mod collector;
pub mod deque;
pub mod laws;
pub mod queue;

verus! {

use crate::collector::Collector;

/// A node of the singly-linked list: a payload and the index of its
/// successor in the arena.
pub struct Node<T> {
    pub payload: T,
    pub next: Option<usize>,
}

/// Singly-linked stack-like list, no sentinel: push and pop at the head
/// only. The simplest client of the reclamation arena.
pub struct LinkedList<T> {
    collector: Collector<Node<T>>,
    head: Option<usize>,
    order: Ghost<Seq<usize>>,
}

impl<T> View for LinkedList<T> {
    type V = Seq<T>;

    /// The payloads reachable from the head, front first.
    closed spec fn view(&self) -> Seq<T> {
        self.order@.map_values(|i: usize| self.collector.node(i).payload)
    }
}

impl<T> LinkedList<T> {
    /// True when arena index `i` holds a node that has not been retired.
    pub closed spec fn node_live(self, i: usize) -> bool {
        self.collector.live(i)
    }

    pub closed spec fn wf(self) -> bool {
        let s = self.order@;
        &&& self.collector.wf()
        &&& if s.len() == 0 {
            self.head is None
        } else {
            self.head == Some(s[0])
        }
        &&& forall|j: int| 0 <= j < s.len() ==> self.collector.live(#[trigger] s[j])
        &&& forall|j: int|
            0 <= j < s.len() ==> (#[trigger] self.collector.node(s[j]).next) == (if j == s.len()
                - 1 {
                None::<usize>
            } else {
                Some(s[j + 1])
            })
        &&& forall|i: usize| #[trigger] self.collector.live(i) ==> s.contains(i)
        &&& s.no_duplicates()
    }

    /// Reclamation residue: once every element has been popped, no node of
    /// the list is live in its arena at all — the list has no sentinel, so a
    /// drained list has returned every node it ever held to the arena, each
    /// exactly once.
    pub proof fn lemma_drained_leaves_no_nodes(self)
        requires
            self.wf(),
            self@.len() == 0,
        ensures
            forall|i: usize| !self.node_live(i),
    {
        let s = self.order@;
        assert(s.len() == 0);
        assert forall|i: usize| !self.node_live(i) by {
            if self.collector.live(i) {
                assert(s.contains(i));
                let k = choose|k: int| 0 <= k < s.len() && s[k] == i;
            }
        }
    }

    /// An empty list: a null head and an empty arena.
    pub fn new() -> (l: Self)
        ensures
            l.wf(),
            l@ == Seq::<T>::empty(),
    {
        let l = LinkedList { collector: Collector::new(), head: None, order: Ghost(Seq::empty()) };
        proof {
            assert(l@ =~= Seq::<T>::empty());
        }
        l
    }

    /// Links a fresh node holding `t` in front of the current head.
    pub fn push_front(&mut self, t: T)
        requires
            old(self).wf(),
        ensures
            final(self).wf(),
            final(self)@ == seq![t] + old(self)@,
    {
        let n = self.collector.insert(Node { payload: t, next: self.head });
        self.head = Some(n);
        self.order = Ghost(seq![n] + self.order@);
        proof {
            let s = old(self).order@;
            let s2 = self.order@;
            assert forall|i: usize| #[trigger] self.collector.live(i) implies s2.contains(i) by {
                if i == n {
                    assert(s2[0] == i);
                } else {
                    assert(old(self).collector.live(i));
                    let k = choose|k: int| 0 <= k < s.len() && s[k] == i;
                    assert(s2[k + 1] == i);
                }
            }
            assert(s2.no_duplicates()) by {
                assert forall|p: int, q: int|
                    0 <= p < s2.len() && 0 <= q < s2.len() && p != q implies s2[p] != s2[q] by {
                    if p >= 1 && q >= 1 {
                        assert(s[p - 1] != s[q - 1]);
                    } else {
                        let r = if p == 0 { q } else { p };
                        assert(s2[r] == s[r - 1]);
                        assert(old(self).collector.live(s[r - 1]));
                    }
                }
            }
            assert(final(self)@ =~= seq![t] + old(self)@);
        }
    }

    /// Unlinks the head node, retires it, and returns its payload; `None` on
    /// an empty list.
    pub fn pop_front(&mut self) -> (r: Option<T>)
        requires
            old(self).wf(),
        ensures
            final(self).wf(),
            old(self)@.len() == 0 ==> r is None && *final(self) == *old(self),
            old(self)@.len() > 0 ==> r == Some(old(self)@[0]) && final(self)@ == old(
                self,
            )@.drop_first(),
    {
        match self.head {
            None => None,
            Some(h) => {
                proof {
                    let s = self.order@;
                    assert(self.collector.live(s[0]));
                }
                let node = self.collector.retire(h);
                self.head = node.next;
                self.order = Ghost(self.order@.drop_first());
                proof {
                    let s = old(self).order@;
                    let s2 = self.order@;
                    assert forall|i: usize| #[trigger] self.collector.live(i) implies s2.contains(
                        i,
                    ) by {
                        assert(old(self).collector.live(i));
                        let k = choose|k: int| 0 <= k < s.len() && s[k] == i;
                        assert(k != 0) by {
                            if k == 0 {
                                assert(!final(self).collector.live(h));
                            }
                        }
                        assert(s2[k - 1] == i);
                    }
                    assert(final(self)@ =~= old(self)@.drop_first());
                }
                Some(node.payload)
            },
        }
    }
}

} // verus!
