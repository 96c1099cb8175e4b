//! FIFO queue: push at the tail, pop at the head.
//!
//! The same sentinel-anchored chain core as the deque, restricted to one
//! direction; the `prev` references of the core are kept for tail fix-up but
//! never surface in any queue operation.

use vstd::prelude::*;

verus! {

use crate::chain::Chain;

/// First-in-first-out queue with an element counter.
pub struct Queue<T> {
    chain: Chain<T>,
}

impl<T> View for Queue<T> {
    type V = Seq<T>;

    /// The elements in order, front (oldest) first.
    closed spec fn view(&self) -> Seq<T> {
        self.chain@
    }
}

impl<T> Queue<T> {
    /// True when arena index `i` holds a node that has not been retired.
    pub closed spec fn node_live(self, i: usize) -> bool {
        self.chain.node_live(i)
    }

    /// The arena index of the dummy node.
    pub closed spec fn dummy_index(self) -> usize {
        self.chain.dummy_index()
    }

    pub closed spec fn wf(self) -> bool {
        self.chain.wf()
    }

    /// An empty queue: one dummy sentinel node, referenced by both ends.
    pub fn new() -> (q: Self)
        ensures
            q.wf(),
            q@ == Seq::<T>::empty(),
    {
        Queue { chain: Chain::new() }
    }

    /// The number of elements pushed and not yet popped.
    pub fn len(&self) -> (n: usize)
        requires
            self.wf(),
        ensures
            n == self@.len(),
    {
        self.chain.len()
    }

    /// Appends `t` at the back of the queue.
    pub fn push_back(&mut self, t: T)
        requires
            old(self).wf(),
        ensures
            final(self).wf(),
            final(self)@ == old(self)@.push(t),
    {
        self.chain.push_back(t)
    }

    /// Removes and returns the oldest element; `None` when the queue is
    /// empty, which is an ordinary outcome, not a fault.
    pub fn pop_front(&mut self) -> (r: Option<T>)
        requires
            old(self).wf(),
        ensures
            final(self).wf(),
            old(self)@.len() == 0 ==> r is None && *final(self) == *old(self),
            old(self)@.len() > 0 ==> r == Some(old(self)@[0]) && final(self)@ == old(
                self,
            )@.drop_first(),
    {
        self.chain.pop_front()
    }

    /// Reclamation residue: once every element has been popped, the only
    /// node still live in the queue's arena is the dummy sentinel.
    pub proof fn lemma_drained_leaves_only_dummy(self)
        requires
            self.wf(),
            self@.len() == 0,
        ensures
            forall|i: usize| self.node_live(i) <==> i == self.dummy_index(),
    {
        self.chain.lemma_drained_leaves_only_dummy();
    }
}

} // verus!
