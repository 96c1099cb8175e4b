//! Doubly-linked deque: push and pop at both ends.
//!
//! A thin surface over the sentinel-anchored chain core of [`crate::chain`];
//! no state of its own beyond the core.

use vstd::prelude::*;

verus! {

use crate::chain::Chain;

/// Doubly-linked list with push and pop at both ends and an element counter.
pub struct LinkedList<T> {
    chain: Chain<T>,
}

impl<T> View for LinkedList<T> {
    type V = Seq<T>;

    /// The elements in order, front first.
    closed spec fn view(&self) -> Seq<T> {
        self.chain@
    }
}

impl<T> LinkedList<T> {
    /// True when arena index `i` holds a node that has not been retired.
    pub closed spec fn node_live(self, i: usize) -> bool {
        self.chain.node_live(i)
    }

    /// The arena index of the dummy node.
    pub closed spec fn dummy_index(self) -> usize {
        self.chain.dummy_index()
    }

    pub closed spec fn wf(self) -> bool {
        self.chain.wf()
    }

    /// An empty deque: one dummy sentinel node, referenced by both ends.
    pub fn new() -> (l: Self)
        ensures
            l.wf(),
            l@ == Seq::<T>::empty(),
    {
        LinkedList { chain: Chain::new() }
    }

    /// The number of elements pushed and not yet popped.
    pub fn len(&self) -> (n: usize)
        requires
            self.wf(),
        ensures
            n == self@.len(),
    {
        self.chain.len()
    }

    /// Appends `t` at the back.
    pub fn push_back(&mut self, t: T)
        requires
            old(self).wf(),
        ensures
            final(self).wf(),
            final(self)@ == old(self)@.push(t),
    {
        self.chain.push_back(t)
    }

    /// Prepends `t` at the front.
    pub fn push_front(&mut self, t: T)
        requires
            old(self).wf(),
        ensures
            final(self).wf(),
            final(self)@ == seq![t] + old(self)@,
    {
        self.chain.push_front(t)
    }

    /// Removes and returns the front element; `None` when the deque is
    /// empty, which is an ordinary outcome, not a fault.
    pub fn pop_front(&mut self) -> (r: Option<T>)
        requires
            old(self).wf(),
        ensures
            final(self).wf(),
            old(self)@.len() == 0 ==> r is None && *final(self) == *old(self),
            old(self)@.len() > 0 ==> r == Some(old(self)@[0]) && final(self)@ == old(
                self,
            )@.drop_first(),
    {
        self.chain.pop_front()
    }

    /// Removes and returns the back element; `None` when the deque is empty.
    pub fn pop_back(&mut self) -> (r: Option<T>)
        requires
            old(self).wf(),
        ensures
            final(self).wf(),
            old(self)@.len() == 0 ==> r is None && *final(self) == *old(self),
            old(self)@.len() > 0 ==> r == Some(old(self)@.last()) && final(self)@ == old(
                self,
            )@.drop_last(),
    {
        self.chain.pop_back()
    }

    /// Reclamation residue: once every element has been popped, the only
    /// node still live in the deque's arena is the dummy sentinel.
    pub proof fn lemma_drained_leaves_only_dummy(self)
        requires
            self.wf(),
            self@.len() == 0,
        ensures
            forall|i: usize| self.node_live(i) <==> i == self.dummy_index(),
    {
        self.chain.lemma_drained_leaves_only_dummy();
    }
}

} // verus!
