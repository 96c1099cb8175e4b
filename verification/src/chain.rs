//! Sentinel-anchored doubly-linked core shared by the deque and the queue.
//!
//! The chain is a sequence of arena-held nodes, each linked to its successor
//! by `next` and to its predecessor by `prev`; the chain seen through `next`
//! from the head is exactly the reverse of the chain seen through `prev` from
//! the tail. Exactly one node, the dummy, holds no payload: it marks the end
//! at which payloads were last consumed, so the chain is never empty and head
//! and tail always reference a live node. A push links a fresh node at an
//! end; a pop either unlinks a payload-carrying end node outright or, when
//! the end node is the dummy, consumes the payload of its neighbour, which
//! becomes the new dummy. Either way the unlinked node is retired to the
//! arena exactly once.

use vstd::prelude::*;

verus! {

use crate::collector::Collector;

/// A node of the chain. The payload slot is `None` exactly for the dummy.
pub struct Node<T> {
    pub payload: Option<T>,
    pub next: Option<usize>,
    pub prev: Option<usize>,
}

/// Doubly-linked chain anchored by head and tail indices into its own
/// reclamation arena, with an element counter.
pub struct Chain<T> {
    collector: Collector<Node<T>>,
    head: usize,
    tail: usize,
    count: usize,
    order: Ghost<Seq<usize>>,
    dummy: Ghost<int>,
}

impl<T> View for Chain<T> {
    type V = Seq<T>;

    /// The payloads of the chain in order, front first, the dummy skipped.
    closed spec fn view(&self) -> Seq<T> {
        self.order@.remove(self.dummy@).map_values(|i: usize| self.collector.node(i).payload->0)
    }
}

impl<T> Chain<T> {
    /// True when arena index `i` holds a node that has not been retired.
    pub closed spec fn node_live(self, i: usize) -> bool {
        self.collector.live(i)
    }

    /// The arena index of the dummy node.
    pub closed spec fn dummy_index(self) -> usize {
        self.order@[self.dummy@]
    }

    pub closed spec fn wf(self) -> bool {
        let s = self.order@;
        &&& self.collector.wf()
        &&& 1 <= s.len()
        &&& s[0] == self.head
        &&& s[s.len() - 1] == self.tail
        &&& 0 <= self.dummy@ < s.len()
        &&& forall|j: int| 0 <= j < s.len() ==> self.collector.live(#[trigger] s[j])
        &&& forall|j: int|
            0 <= j < s.len() ==> (#[trigger] self.collector.node(s[j]).next) == (if j == s.len()
                - 1 {
                None::<usize>
            } else {
                Some(s[j + 1])
            })
        &&& forall|j: int|
            0 <= j < s.len() ==> (#[trigger] self.collector.node(s[j]).prev) == (if j == 0 {
                None::<usize>
            } else {
                Some(s[j - 1])
            })
        &&& forall|j: int|
            0 <= j < s.len() ==> ((#[trigger] self.collector.node(s[j]).payload) is Some <==> j
                != self.dummy@)
        &&& forall|i: usize| #[trigger] self.collector.live(i) ==> s.contains(i)
        &&& s.no_duplicates()
        &&& self.count == s.len() - 1
    }

    /// The chain holds no more nodes than its arena has slots: its node
    /// indices are distinct and each lies in the arena.
    proof fn lemma_order_bounded(self)
        requires
            self.wf(),
        ensures
            self.order@.len() <= self.collector.slot_count(),
            self.order@.len() <= usize::MAX,
    {
        broadcast use vstd::set::group_set_axioms;
        broadcast use Collector::lemma_live_bound;

        let s = self.order@;
        let n = self.collector.slot_count() as int;
        let si = s.map_values(|u: usize| u as int);
        assert(si.no_duplicates()) by {
            assert forall|p: int, q: int|
                0 <= p < si.len() && 0 <= q < si.len() && p != q implies si[p] != si[q] by {
                assert(s[p] != s[q]);
            }
        }
        si.unique_seq_to_set();
        assert(si.to_set().subset_of(vstd::set_lib::set_int_range(0, n))) by {
            assert forall|x: int| si.to_set().contains(x) implies vstd::set_lib::set_int_range(
                0,
                n,
            ).contains(x) by {
                assert(si.contains(x));
                let k = choose|k: int| 0 <= k < si.len() && si[k] == x;
                assert(si[k] == s[k] as int);
                assert(self.collector.live(s[k]));
                assert(0 <= x < n);
            }
        }
        vstd::set_lib::lemma_int_range(0, n);
        vstd::set_lib::lemma_len_subset(si.to_set(), vstd::set_lib::set_int_range(0, n));
        self.collector.lemma_slot_bound();
    }

    /// Reclamation residue: once every element has been popped, the only
    /// node still live in the arena is the dummy sentinel. Together with the
    /// collector's contracts — retiring demands a live slot and kills it —
    /// this says that a drained chain has returned every node it ever
    /// unlinked to the arena, each exactly once.
    pub proof fn lemma_drained_leaves_only_dummy(self)
        requires
            self.wf(),
            self@.len() == 0,
        ensures
            forall|i: usize| self.node_live(i) <==> i == self.dummy_index(),
    {
        let s = self.order@;
        assert(s.remove(self.dummy@).len() == s.len() - 1);
        assert(s.len() == 1);
        assert forall|i: usize| self.node_live(i) <==> i == self.dummy_index() by {
            if self.collector.live(i) {
                assert(s.contains(i));
                let k = choose|k: int| 0 <= k < s.len() && s[k] == i;
                assert(k == 0);
            }
            if i == self.dummy_index() {
                assert(self.collector.live(s[0]));
            }
        }
    }

    /// A fresh chain: one dummy node, referenced by both head and tail.
    pub fn new() -> (c: Self)
        ensures
            c.wf(),
            c@ == Seq::<T>::empty(),
    {
        let mut collector = Collector::new();
        let s = collector.insert(Node { payload: None, next: None, prev: None });
        let ghost ord: Seq<usize> = seq![s];
        let c = Chain {
            collector,
            head: s,
            tail: s,
            count: 0,
            order: Ghost(ord),
            dummy: Ghost(0),
        };
        proof {
            assert(c@ =~= Seq::<T>::empty());
        }
        c
    }

    /// The element count: the number of linked nodes whose payload has been
    /// initialized and not yet consumed.
    pub fn len(&self) -> (n: usize)
        requires
            self.wf(),
        ensures
            n == self@.len(),
    {
        self.count
    }

    /// Links a fresh node holding `x` after the current tail and advances the
    /// tail to it.
    pub fn push_back(&mut self, x: T)
        requires
            old(self).wf(),
        ensures
            final(self).wf(),
            final(self)@ == old(self)@.push(x),
    {
        proof {
            old(self).lemma_order_bounded();
            let s = self.order@;
            assert(self.collector.live(s[s.len() - 1]));
        }
        let t = self.tail;
        let n = self.collector.insert(Node { payload: Some(x), next: None, prev: Some(t) });
        let tn = self.collector.node_mut(t);
        tn.next = Some(n);
        self.tail = n;
        self.count = self.count + 1;
        self.order = Ghost(self.order@.push(n));
        proof {
            let s = old(self).order@;
            let s2 = self.order@;
            let d = self.dummy@;
            assert forall|p: int, q: int|
                0 <= p < s2.len() && 0 <= q < s2.len() && p != q implies s2[p] != s2[q] by {
                if p < s.len() && q < s.len() {
                    assert(s[p] != s[q]);
                } else {
                    let r = if p == s.len() {
                        q
                    } else {
                        p
                    };
                    assert(s2[r] == s[r]);
                    assert(old(self).collector.live(s[r]));
                }
            }
            assert forall|i: usize| #[trigger] self.collector.live(i) implies s2.contains(i) by {
                if i == n {
                    assert(s2[s2.len() - 1] == i);
                } else {
                    assert(old(self).collector.live(i));
                    let k = choose|k: int| 0 <= k < s.len() && s[k] == i;
                    assert(s2[k] == i);
                }
            }
            assert forall|j: int| 0 <= j < s2.len() implies self.collector.live(
                #[trigger] s2[j],
            ) by {
                if j < s.len() {
                    assert(old(self).collector.live(s[j]));
                }
            }
            assert(final(self).wf());
            assert(final(self)@.len() == old(self)@.len() + 1);
            assert forall|k: int| 0 <= k < final(self)@.len() implies final(self)@[k] == old(
                self,
            )@.push(x)[k] by {
                let r2 = s2.remove(d);
                let r = s.remove(d);
                if k < old(self)@.len() {
                    let j = if k < d {
                        k
                    } else {
                        k + 1
                    };
                    assert(r2[k] == s2[j] && r[k] == s[j]);
                    assert(old(self).collector.live(s[j]));
                    assert(s[j] != n);
                } else {
                    assert(r2[k] == s2[s2.len() - 1]);
                }
            }
            assert(final(self)@ =~= old(self)@.push(x));
        }
    }

    /// Links a fresh node holding `x` before the current head and moves the
    /// head back to it.
    pub fn push_front(&mut self, x: T)
        requires
            old(self).wf(),
        ensures
            final(self).wf(),
            final(self)@ == seq![x] + old(self)@,
    {
        proof {
            old(self).lemma_order_bounded();
            let s = self.order@;
            assert(self.collector.live(s[0]));
        }
        let h = self.head;
        let n = self.collector.insert(Node { payload: Some(x), next: Some(h), prev: None });
        let hn = self.collector.node_mut(h);
        hn.prev = Some(n);
        self.head = n;
        self.count = self.count + 1;
        self.order = Ghost(seq![n] + self.order@);
        self.dummy = Ghost(self.dummy@ + 1);
        proof {
            let s = old(self).order@;
            let s2 = self.order@;
            let d = self.dummy@;
            assert forall|p: int, q: int|
                0 <= p < s2.len() && 0 <= q < s2.len() && p != q implies s2[p] != s2[q] by {
                if p >= 1 && q >= 1 {
                    assert(s[p - 1] != s[q - 1]);
                } else {
                    let r = if p == 0 {
                        q
                    } else {
                        p
                    };
                    assert(s2[r] == s[r - 1]);
                    assert(old(self).collector.live(s[r - 1]));
                }
            }
            assert forall|i: usize| #[trigger] self.collector.live(i) implies s2.contains(i) by {
                if i == n {
                    assert(s2[0] == i);
                } else {
                    assert(old(self).collector.live(i));
                    let k = choose|k: int| 0 <= k < s.len() && s[k] == i;
                    assert(s2[k + 1] == i);
                }
            }
            assert forall|j: int| 0 <= j < s2.len() implies self.collector.live(
                #[trigger] s2[j],
            ) by {
                if j >= 1 {
                    assert(old(self).collector.live(s[j - 1]));
                }
            }
            assert(final(self).wf());
            assert(final(self)@.len() == old(self)@.len() + 1);
            assert forall|k: int| 0 <= k < final(self)@.len() implies final(self)@[k] == (seq![x]
                + old(self)@)[k] by {
                let r2 = s2.remove(d);
                let r = s.remove(old(self).dummy@);
                if k == 0 {
                    assert(r2[0] == s2[0]);
                } else {
                    let j = if k < d {
                        k
                    } else {
                        k + 1
                    };
                    assert(r2[k] == s2[j] && r[k - 1] == s[j - 1]);
                    assert(old(self).collector.live(s[j - 1]));
                    assert(s[j - 1] != n);
                }
            }
            assert(final(self)@ =~= seq![x] + old(self)@);
        }
    }

    /// Removes the front element: when the head node is the dummy, the
    /// payload of its successor is consumed and that successor becomes the
    /// new dummy head; otherwise the head node itself is unlinked with its
    /// payload. The unlinked node is retired. `None` when the chain holds no
    /// element.
    pub fn pop_front(&mut self) -> (r: Option<T>)
        requires
            old(self).wf(),
        ensures
            final(self).wf(),
            old(self)@.len() == 0 ==> r is None && *final(self) == *old(self),
            old(self)@.len() > 0 ==> r == Some(old(self)@[0]) && final(self)@ == old(
                self,
            )@.drop_first(),
    {
        proof {
            let s = self.order@;
            assert(self.collector.live(s[0]));
        }
        let h = self.head;
        let hnode = self.collector.borrow(h);
        let next = hnode.next;
        let head_is_dummy = hnode.payload.is_none();
        if head_is_dummy {
            match next {
                None => {
                    proof {
                        let s = self.order@;
                        assert(self.dummy@ == 0 && s.len() == 1);
                        assert(old(self)@.len() == 0);
                    }
                    None
                },
                Some(m) => {
                    proof {
                        let s = self.order@;
                        assert(s.len() >= 2 && m == s[1]);
                        assert(self.collector.live(s[1]));
                        assert(old(self)@.len() > 0);
                    }
                    let mn = self.collector.node_mut(m);
                    let taken = mn.payload.take();
                    mn.prev = None;
                    let x = match taken {
                        Some(x) => x,
                        None => vstd::pervasive::unreached(),
                    };
                    let _dummy = self.collector.retire(h);
                    self.head = m;
                    self.count = self.count - 1;
                    self.order = Ghost(self.order@.drop_first());
                    proof {
                        Self::prove_pop_front(*old(self), *self, h, x);
                    }
                    Some(x)
                },
            }
        } else {
            match next {
                Some(m) => {
                    proof {
                        let s = self.order@;
                        assert(self.dummy@ >= 1 && s.len() >= 2 && m == s[1]);
                        assert(self.collector.live(s[1]));
                        assert(old(self)@.len() > 0);
                    }
                    let node = self.collector.retire(h);
                    let x = match node.payload {
                        Some(x) => x,
                        None => vstd::pervasive::unreached(),
                    };
                    let mn = self.collector.node_mut(m);
                    mn.prev = None;
                    self.head = m;
                    self.count = self.count - 1;
                    self.order = Ghost(self.order@.drop_first());
                    self.dummy = Ghost(self.dummy@ - 1);
                    proof {
                        Self::prove_pop_front(*old(self), *self, h, x);
                    }
                    Some(x)
                },
                None => {
                    proof {
                        let s = self.order@;
                        assert(self.dummy@ != 0);
                        assert(s.len() >= 2);
                        assert(false);
                    }
                    vstd::pervasive::unreached()
                },
            }
        }
    }

    /// The shared tail of the two `pop_front` shapes: once the old head node
    /// `h` is unlinked and retired and the order sequence lost its first
    /// entry, the chain is well formed again and its view lost exactly its
    /// front element, the returned `x`.
    proof fn prove_pop_front(pre: Self, post: Self, h: usize, x: T)
        requires
            pre.wf(),
            pre@.len() > 0,
            post.order@ == pre.order@.drop_first(),
            post.dummy@ == if pre.dummy@ == 0 {
                0
            } else {
                pre.dummy@ - 1
            },
            post.head == pre.order@[1],
            post.tail == pre.tail,
            post.count == pre.count - 1,
            h == pre.order@[0],
            post.collector.wf(),
            !post.collector.live(h),
            forall|j: usize| j != h ==> post.collector.live(j) == pre.collector.live(j),
            post.collector.node(pre.order@[1]) == (Node {
                payload: if pre.dummy@ == 0 {
                    None
                } else {
                    pre.collector.node(pre.order@[1]).payload
                },
                next: pre.collector.node(pre.order@[1]).next,
                prev: None::<usize>,
            }),
            forall|j: usize|
                j != h && j != pre.order@[1] && pre.collector.live(j) ==> post.collector.node(j)
                    == pre.collector.node(j),
            x == if pre.dummy@ == 0 {
                pre.collector.node(pre.order@[1]).payload->0
            } else {
                pre.collector.node(h).payload->0
            },
        ensures
            post.wf(),
            x == pre@[0],
            post@ == pre@.drop_first(),
    {
        let s = pre.order@;
        let s2 = post.order@;
        let d0 = pre.dummy@;
        let d = post.dummy@;
        let m = s[1];
        assert(s.len() >= 2) by {
            if s.len() == 1 {
                assert(pre@.len() == 0);
            }
        }
        assert(h != m) by {
            assert(s[0] != s[1]);
        }
        assert forall|j: int| 0 <= j < s2.len() implies post.collector.live(#[trigger] s2[j]) by {
            assert(s2[j] == s[j + 1]);
            assert(pre.collector.live(s[j + 1]));
            assert(s[j + 1] != s[0]);
        }
        assert forall|i: usize| #[trigger] post.collector.live(i) implies s2.contains(i) by {
            assert(pre.collector.live(i));
            let k = choose|k: int| 0 <= k < s.len() && s[k] == i;
            assert(k != 0) by {
                if k == 0 {
                    assert(!post.collector.live(h));
                }
            }
            assert(s2[k - 1] == i);
        }
        assert(s2.no_duplicates()) by {
            assert forall|p: int, q: int|
                0 <= p < s2.len() && 0 <= q < s2.len() && p != q implies s2[p] != s2[q] by {
                assert(s[p + 1] != s[q + 1]);
            }
        }
        assert forall|j: int| 0 <= j < s2.len() implies ((#[trigger] post.collector.node(
            s2[j],
        ).payload) is Some <==> j != d) && post.collector.node(s2[j]).next == (if j == s2.len()
            - 1 {
            None::<usize>
        } else {
            Some(s2[j + 1])
        }) && post.collector.node(s2[j]).prev == (if j == 0 {
            None::<usize>
        } else {
            Some(s2[j - 1])
        }) by {
            assert(s2[j] == s[j + 1]);
            assert(s[j + 1] != h);
            if j != 0 {
                assert(s[j + 1] != m);
                assert(pre.collector.live(s[j + 1]));
                assert(post.collector.node(s[j + 1]) == pre.collector.node(s[j + 1]));
            }
        }
        assert(post.wf());
        assert(pre@[0] == x) by {
            let r = s.remove(d0);
            if d0 == 0 {
                assert(r[0] == s[1]);
            } else {
                assert(r[0] == s[0]);
            }
        }
        assert(post@.len() == pre@.len() - 1);
        assert forall|k: int| 0 <= k < post@.len() implies post@[k] == pre@.drop_first()[k] by {
            let r2 = s2.remove(d);
            let r = s.remove(d0);
            let j = if k < d {
                k
            } else {
                k + 1
            };
            assert(r2[k] == s2[j]);
            assert(s2[j] == s[j + 1]);
            if d0 == 0 {
                assert(r[k + 1] == s[k + 2]);
                assert(j + 1 == k + 2);
            } else {
                let j0 = if k + 1 < d0 {
                    k + 1
                } else {
                    k + 2
                };
                assert(r[k + 1] == s[j0]);
                assert(j0 == j + 1);
            }
            assert(s[j + 1] != h);
            if s[j + 1] != m {
                assert(pre.collector.live(s[j + 1]));
                assert(post.collector.node(s[j + 1]) == pre.collector.node(s[j + 1]));
            }
        }
        assert(post@ =~= pre@.drop_first());
    }

    /// Removes the back element, the mirror of `pop_front`: when the tail
    /// node is the dummy, the payload of its predecessor is consumed and that
    /// predecessor becomes the new dummy tail; otherwise the tail node itself
    /// is unlinked with its payload. The unlinked node is retired. `None`
    /// when the chain holds no element.
    pub fn pop_back(&mut self) -> (r: Option<T>)
        requires
            old(self).wf(),
        ensures
            final(self).wf(),
            old(self)@.len() == 0 ==> r is None && *final(self) == *old(self),
            old(self)@.len() > 0 ==> r == Some(old(self)@.last()) && final(self)@ == old(
                self,
            )@.drop_last(),
    {
        proof {
            let s = self.order@;
            assert(self.collector.live(s[s.len() - 1]));
        }
        let t = self.tail;
        let tnode = self.collector.borrow(t);
        let prev = tnode.prev;
        let tail_is_dummy = tnode.payload.is_none();
        if tail_is_dummy {
            match prev {
                None => {
                    proof {
                        let s = self.order@;
                        assert(self.dummy@ == s.len() - 1 && s.len() == 1);
                        assert(old(self)@.len() == 0);
                    }
                    None
                },
                Some(m) => {
                    proof {
                        let s = self.order@;
                        assert(s.len() >= 2 && m == s[s.len() - 2]);
                        assert(self.collector.live(s[s.len() - 2]));
                        assert(old(self)@.len() > 0);
                    }
                    let mn = self.collector.node_mut(m);
                    let taken = mn.payload.take();
                    mn.next = None;
                    let x = match taken {
                        Some(x) => x,
                        None => vstd::pervasive::unreached(),
                    };
                    let _dummy = self.collector.retire(t);
                    self.tail = m;
                    self.count = self.count - 1;
                    self.order = Ghost(self.order@.drop_last());
                    self.dummy = Ghost(self.dummy@ - 1);
                    proof {
                        Self::prove_pop_back(*old(self), *self, t, x);
                    }
                    Some(x)
                },
            }
        } else {
            match prev {
                Some(m) => {
                    proof {
                        let s = self.order@;
                        assert(self.dummy@ < s.len() - 1 && s.len() >= 2 && m == s[s.len() - 2]);
                        assert(self.collector.live(s[s.len() - 2]));
                        assert(old(self)@.len() > 0);
                    }
                    let node = self.collector.retire(t);
                    let x = match node.payload {
                        Some(x) => x,
                        None => vstd::pervasive::unreached(),
                    };
                    let mn = self.collector.node_mut(m);
                    mn.next = None;
                    self.tail = m;
                    self.count = self.count - 1;
                    self.order = Ghost(self.order@.drop_last());
                    proof {
                        Self::prove_pop_back(*old(self), *self, t, x);
                    }
                    Some(x)
                },
                None => {
                    proof {
                        let s = self.order@;
                        assert(self.dummy@ != s.len() - 1);
                        assert(s.len() >= 2);
                        assert(false);
                    }
                    vstd::pervasive::unreached()
                },
            }
        }
    }

    /// The shared tail of the two `pop_back` shapes, the mirror of
    /// `prove_pop_front`.
    proof fn prove_pop_back(pre: Self, post: Self, t: usize, x: T)
        requires
            pre.wf(),
            pre@.len() > 0,
            post.order@ == pre.order@.drop_last(),
            post.dummy@ == if pre.dummy@ == pre.order@.len() - 1 {
                pre.dummy@ - 1
            } else {
                pre.dummy@
            },
            post.tail == pre.order@[pre.order@.len() - 2],
            post.head == pre.head,
            post.count == pre.count - 1,
            t == pre.order@[pre.order@.len() - 1],
            post.collector.wf(),
            !post.collector.live(t),
            forall|j: usize| j != t ==> post.collector.live(j) == pre.collector.live(j),
            post.collector.node(pre.order@[pre.order@.len() - 2]) == (Node {
                payload: if pre.dummy@ == pre.order@.len() - 1 {
                    None
                } else {
                    pre.collector.node(pre.order@[pre.order@.len() - 2]).payload
                },
                next: None::<usize>,
                prev: pre.collector.node(pre.order@[pre.order@.len() - 2]).prev,
            }),
            forall|j: usize|
                j != t && j != pre.order@[pre.order@.len() - 2] && pre.collector.live(j)
                    ==> post.collector.node(j) == pre.collector.node(j),
            x == if pre.dummy@ == pre.order@.len() - 1 {
                pre.collector.node(pre.order@[pre.order@.len() - 2]).payload->0
            } else {
                pre.collector.node(t).payload->0
            },
        ensures
            post.wf(),
            x == pre@.last(),
            post@ == pre@.drop_last(),
    {
        let s = pre.order@;
        let s2 = post.order@;
        let d0 = pre.dummy@;
        let d = post.dummy@;
        let m = s[s.len() - 2];
        assert(s.len() >= 2) by {
            if s.len() == 1 {
                assert(pre@.len() == 0);
            }
        }
        assert(t != m) by {
            assert(s[s.len() - 1] != s[s.len() - 2]);
        }
        assert forall|j: int| 0 <= j < s2.len() implies post.collector.live(#[trigger] s2[j]) by {
            assert(s2[j] == s[j]);
            assert(pre.collector.live(s[j]));
            assert(s[j] != s[s.len() - 1]);
        }
        assert forall|i: usize| #[trigger] post.collector.live(i) implies s2.contains(i) by {
            assert(pre.collector.live(i));
            let k = choose|k: int| 0 <= k < s.len() && s[k] == i;
            assert(k != s.len() - 1) by {
                if k == s.len() - 1 {
                    assert(!post.collector.live(t));
                }
            }
            assert(s2[k] == i);
        }
        assert(s2.no_duplicates()) by {
            assert forall|p: int, q: int|
                0 <= p < s2.len() && 0 <= q < s2.len() && p != q implies s2[p] != s2[q] by {
                assert(s[p] != s[q]);
            }
        }
        assert forall|j: int| 0 <= j < s2.len() implies ((#[trigger] post.collector.node(
            s2[j],
        ).payload) is Some <==> j != d) && post.collector.node(s2[j]).next == (if j == s2.len()
            - 1 {
            None::<usize>
        } else {
            Some(s2[j + 1])
        }) && post.collector.node(s2[j]).prev == (if j == 0 {
            None::<usize>
        } else {
            Some(s2[j - 1])
        }) by {
            assert(s2[j] == s[j]);
            assert(s[j] != t);
            if j != s2.len() - 1 {
                assert(s[j] != m);
                assert(pre.collector.live(s[j]));
                assert(post.collector.node(s[j]) == pre.collector.node(s[j]));
            }
        }
        assert(post.wf());
        assert(pre@.last() == x) by {
            let r = s.remove(d0);
            if d0 == s.len() - 1 {
                assert(r[r.len() - 1] == s[s.len() - 2]);
            } else {
                assert(r[r.len() - 1] == s[s.len() - 1]);
            }
        }
        assert(post@.len() == pre@.len() - 1);
        assert forall|k: int| 0 <= k < post@.len() implies post@[k] == pre@.drop_last()[k] by {
            let r2 = s2.remove(d);
            let r = s.remove(d0);
            let j = if k < d {
                k
            } else {
                k + 1
            };
            assert(r2[k] == s2[j]);
            assert(s2[j] == s[j]);
            let j0 = if k < d0 {
                k
            } else {
                k + 1
            };
            assert(r[k] == s[j0]);
            assert(j0 == j);
            assert(s[j] != t);
            if s[j] != m {
                assert(pre.collector.live(s[j]));
                assert(post.collector.node(s[j]) == pre.collector.node(s[j]));
            }
        }
        assert(post@ =~= pre@.drop_last());
    }
}

} // verus!
