//! Laws relating the operations of the structures, stated over the sequence
//! views that the push and pop contracts speak of.

use vstd::prelude::*;

verus! {

/// No loss, no duplication. A push at either end adds exactly one copy of
/// its element to the multiset of held elements, and a pop at either end
/// removes exactly one copy of the element it returns; nothing else changes.
/// The push contracts grow the view by `push` or by prepending, and the pop
/// contracts shrink it by `drop_first` or `drop_last`, so across any run of
/// operations the multiset of popped elements equals the multiset pushed.
pub proof fn lemma_no_loss_no_duplication<T>(s: Seq<T>, x: T)
    ensures
        s.push(x).to_multiset() == s.to_multiset().insert(x),
        (seq![x] + s).to_multiset() == s.to_multiset().insert(x),
        s.len() > 0 ==> s.to_multiset() == s.drop_first().to_multiset().insert(s[0]),
        s.len() > 0 ==> s.to_multiset() == s.drop_last().to_multiset().insert(s.last()),
{
    broadcast use vstd::seq_lib::group_to_multiset_ensures;
    broadcast use vstd::multiset::group_multiset_axioms;

    assert(s.push(x).to_multiset() =~= s.to_multiset().insert(x));
    assert((seq![x] + s).to_multiset() == s.to_multiset().insert(x)) by {
        let p = seq![x] + s;
        assert(p.remove(0) =~= s);
        assert(p.remove(0).to_multiset() =~= p.to_multiset().remove(p[0]));
        assert(p.to_multiset().count(x) > 0) by {
            assert(p.contains(x));
        }
        assert(p.to_multiset().remove(x).insert(x) =~= p.to_multiset());
    }
    if s.len() > 0 {
        assert(s.to_multiset() == s.drop_first().to_multiset().insert(s[0])) by {
            assert(s.remove(0) =~= s.drop_first());
            assert(s.remove(0).to_multiset() =~= s.to_multiset().remove(s[0]));
            assert(s.to_multiset().count(s[0]) > 0) by {
                assert(s.contains(s[0]));
            }
            assert(s.to_multiset().remove(s[0]).insert(s[0]) =~= s.to_multiset());
        }
        assert(s.to_multiset() == s.drop_last().to_multiset().insert(s.last())) by {
            let e = s.len() - 1;
            assert(s.remove(e) =~= s.drop_last());
            assert(s.remove(e).to_multiset() =~= s.to_multiset().remove(s[e]));
            assert(s.to_multiset().count(s[e]) > 0) by {
                assert(s.contains(s[e]));
            }
            assert(s.to_multiset().remove(s[e]).insert(s[e]) =~= s.to_multiset());
        }
    }
}

/// The view after pushing every element of `xs` at the back, one call after
/// the other, onto a structure whose view was `s`.
pub open spec fn pushed_back<T>(s: Seq<T>, xs: Seq<T>) -> Seq<T>
    decreases xs.len(),
{
    if xs.len() == 0 {
        s
    } else {
        pushed_back(s.push(xs[0]), xs.drop_first())
    }
}

/// The view after pushing every element of `xs` at the front, one call after
/// the other, onto a structure whose view was `s`.
pub open spec fn pushed_front<T>(s: Seq<T>, xs: Seq<T>) -> Seq<T>
    decreases xs.len(),
{
    if xs.len() == 0 {
        s
    } else {
        pushed_front(seq![xs[0]] + s, xs.drop_first())
    }
}

/// Program-order preservation. One caller's pushes at the back land in the
/// view as the contiguous block `xs`, in push order; a drain by `pop_front`,
/// which always returns the front of the view and drops it, therefore
/// observes them in exactly that order. Pushes at the front land as the
/// block `xs.reverse()`, so a drain by `pop_back`, which returns the back of
/// the view, again observes them in push order.
pub proof fn lemma_program_order<T>(s: Seq<T>, xs: Seq<T>)
    ensures
        pushed_back(s, xs) == s + xs,
        pushed_front(s, xs) == xs.reverse() + s,
    decreases xs.len(),
{
    if xs.len() == 0 {
        assert(s + xs =~= s);
        assert(xs.reverse() + s =~= s);
    } else {
        lemma_program_order(s.push(xs[0]), xs.drop_first());
        lemma_program_order(seq![xs[0]] + s, xs.drop_first());
        assert(s.push(xs[0]) + xs.drop_first() =~= s + xs);
        assert(xs.drop_first().reverse() + (seq![xs[0]] + s) =~= xs.reverse() + s);
    }
}

/// Length accounting. A push grows the view by exactly one element and a
/// successful pop shrinks it by exactly one, while a pop of an empty
/// structure changes nothing; `len()` returns the view's length. So at any
/// quiescent point `len()` equals the number of elements pushed minus the
/// number successfully popped.
pub proof fn lemma_length_accounting<T>(s: Seq<T>, x: T)
    ensures
        s.push(x).len() == s.len() + 1,
        (seq![x] + s).len() == s.len() + 1,
        s.len() > 0 ==> s.drop_first().len() == s.len() - 1,
        s.len() > 0 ==> s.drop_last().len() == s.len() - 1,
{
}

} // verus!
