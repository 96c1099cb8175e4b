//! Deferred-reclamation arena.
//!
//! Every node of a linked structure lives in a slot of one [`Collector`].
//! A slot is either live or reclaimed; the indices of the reclaimed slots sit
//! on a free list and are handed out again by `insert`. A node can be read or
//! written only while its slot is live, and `retire` reclaims a slot exactly
//! once: every access demands liveness, so a retired index can never be
//! dereferenced again, and a live node can never be reclaimed out from under a
//! reference that the structure still hands out.

use vstd::prelude::*;

verus! {

pub struct Collector<N> {
    slots: Vec<Option<N>>,
    free: Vec<usize>,
}

impl<N> Collector<N> {
    /// Number of slots the arena has ever allocated.
    pub closed spec fn slot_count(self) -> nat {
        self.slots@.len()
    }

    /// True when index `i` holds a node that has not been retired.
    pub closed spec fn live(self, i: usize) -> bool {
        i < self.slots@.len() && self.slots@[i as int] is Some
    }

    /// The node held at live index `i`.
    pub closed spec fn node(self, i: usize) -> N
        recommends
            self.live(i),
    {
        self.slots@[i as int]->0
    }

    /// The free list holds exactly the reclaimed slots, each once.
    pub closed spec fn wf(self) -> bool {
        &&& forall|k: int|
            0 <= k < self.free@.len() ==> (#[trigger] self.free@[k]) < self.slots@.len()
                && self.slots@[self.free@[k] as int] is None
        &&& self.free@.no_duplicates()
        &&& forall|i: usize|
            i < self.slots@.len() && (#[trigger] self.slots@[i as int]) is None
                ==> self.free@.contains(i)
    }

    /// A live index lies within the arena.
    pub broadcast proof fn lemma_live_bound(self, i: usize)
        ensures
            #[trigger] self.live(i) ==> i < self.slot_count(),
    {
    }

    /// A `Vec` never holds more than `usize::MAX` elements, so neither does
    /// the arena.
    pub proof fn lemma_slot_bound(self)
        ensures
            self.slot_count() <= usize::MAX,
    {
        vstd::std_specs::vec::axiom_spec_len(&self.slots);
    }

    pub fn new() -> (c: Self)
        ensures
            c.wf(),
            c.slot_count() == 0,
            forall|i: usize| !c.live(i),
    {
        Collector { slots: Vec::new(), free: Vec::new() }
    }

    /// Places a node in a slot and returns its index, reusing a reclaimed
    /// slot when one is available. The index was not live before the call;
    /// every other slot is untouched.
    pub fn insert(&mut self, n: N) -> (i: usize)
        requires
            old(self).wf(),
        ensures
            final(self).wf(),
            !old(self).live(i),
            final(self).live(i),
            final(self).node(i) == n,
            old(self).slot_count() <= final(self).slot_count(),
            forall|j: usize| j != i ==> final(self).live(j) == old(self).live(j),
            forall|j: usize| j != i && old(self).live(j) ==> final(self).node(j) == old(self).node(j),
    {
        match self.free.pop() {
            Some(f) => {
                proof {
                    let fr = old(self).free@;
                    assert(fr[fr.len() - 1] < old(self).slots@.len());
                }
                self.slots[f] = Some(n);
                proof {
                    let fr = old(self).free@;
                    assert forall|i: usize|
                        i < self.slots@.len() && (#[trigger] self.slots@[i as int]) is None
                            implies self.free@.contains(i) by {
                        assert(old(self).slots@[i as int] is None);
                        assert(fr.contains(i));
                        let k = choose|k: int| 0 <= k < fr.len() && fr[k] == i;
                        assert(k != fr.len() - 1) by {
                            if k == fr.len() - 1 {
                                assert(i == f);
                                assert(self.slots@[i as int] is Some);
                            }
                        }
                        assert(self.free@[k] == i);
                    }
                }
                f
            },
            None => {
                let i = self.slots.len();
                self.slots.push(Some(n));
                proof {
                    assert forall|i: usize|
                        i < self.slots@.len() && (#[trigger] self.slots@[i as int]) is None
                            implies self.free@.contains(i) by {
                        assert(old(self).slots@[i as int] is None);
                    }
                }
                i
            },
        }
    }

    /// Read access to a live node.
    pub fn borrow(&self, i: usize) -> (r: &N)
        requires
            self.live(i),
        ensures
            *r == self.node(i),
    {
        match &self.slots[i] {
            Some(n) => n,
            None => vstd::pervasive::unreached(),
        }
    }

    /// Write access to a live node. The slot stays live whatever the caller
    /// writes through the reference; no other slot is touched.
    pub fn node_mut(&mut self, i: usize) -> (r: &mut N)
        requires
            old(self).wf(),
            old(self).live(i),
        ensures
            *r == old(self).node(i),
            final(self).wf(),
            final(self).slot_count() == old(self).slot_count(),
            final(self).node(i) == *final(r),
            forall|j: usize| final(self).live(j) == old(self).live(j),
            forall|j: usize| j != i && old(self).live(j) ==> final(self).node(j) == old(self).node(j),
    {
        let slot = &mut self.slots[i];
        match slot.as_mut() {
            Some(r) => r,
            None => vstd::pervasive::unreached(),
        }
    }

    /// Unlinks a live node from the arena and returns it. The slot joins the
    /// free list: it is no longer live, so no later read or write can reach
    /// it, and a second retire of the same index is ruled out.
    pub fn retire(&mut self, i: usize) -> (n: N)
        requires
            old(self).wf(),
            old(self).live(i),
        ensures
            final(self).wf(),
            n == old(self).node(i),
            !final(self).live(i),
            final(self).slot_count() == old(self).slot_count(),
            forall|j: usize| j != i ==> final(self).live(j) == old(self).live(j),
            forall|j: usize| j != i && old(self).live(j) ==> final(self).node(j) == old(self).node(j),
    {
        let slot = &mut self.slots[i];
        let taken = slot.take();
        proof {
            let fr = old(self).free@;
            assert(!fr.contains(i)) by {
                if fr.contains(i) {
                    let k = choose|k: int| 0 <= k < fr.len() && fr[k] == i;
                    assert(fr[k] < old(self).slots@.len());
                }
            }
        }
        self.free.push(i);
        proof {
            let fr = old(self).free@;
            assert forall|k: int|
                0 <= k < self.free@.len() implies (#[trigger] self.free@[k]) < self.slots@.len()
                    && self.slots@[self.free@[k] as int] is None by {
                if k < fr.len() {
                    assert(self.free@[k] == fr[k]);
                    assert(fr[k] < old(self).slots@.len());
                } else {
                    assert(self.free@[k] == i);
                }
            }
            assert(self.free@.no_duplicates()) by {
                assert forall|p: int, q: int|
                    0 <= p < self.free@.len() && 0 <= q < self.free@.len() && p != q
                        implies self.free@[p] != self.free@[q] by {
                    if p < fr.len() && q < fr.len() {
                        assert(fr[p] != fr[q]);
                    } else if p < fr.len() {
                        assert(self.free@[q] == i && !fr.contains(i));
                        assert(fr[p] != i) by {
                            if fr[p] == i {
                                assert(fr.contains(i));
                            }
                        }
                    } else {
                        assert(self.free@[p] == i && !fr.contains(i));
                        assert(fr[q] != i) by {
                            if fr[q] == i {
                                assert(fr.contains(i));
                            }
                        }
                    }
                }
            }
            assert forall|j: usize|
                j < self.slots@.len() && (#[trigger] self.slots@[j as int]) is None
                    implies self.free@.contains(j) by {
                if j == i {
                    assert(self.free@[fr.len() as int] == i);
                } else {
                    assert(old(self).slots@[j as int] is None);
                    assert(fr.contains(j));
                    let k = choose|k: int| 0 <= k < fr.len() && fr[k] == j;
                    assert(self.free@[k] == j);
                }
            }
        }
        match taken {
            Some(n) => n,
            None => vstd::pervasive::unreached(),
        }
    }
}

} // verus!
