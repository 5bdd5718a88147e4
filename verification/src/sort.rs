//! Sorting by a total order.

use vstd::multiset::Multiset;
use vstd::prelude::*;
use vstd::relations::*;
use vstd::seq_lib::*;

verus! {

/// A type with a total order.
pub trait Ordered: Copy {
    /// The order.
    spec fn order() -> spec_fn(Self, Self) -> bool;

    /// The order is total.
    proof fn order_is_total()
        ensures
            total_ordering(Self::order()),
    ;

    /// Whether `a` comes before `b` or equals it.
    fn is_before(a: Self, b: Self) -> (res: bool)
        ensures
            res == (Self::order())(a, b),
    ;
}

/// Two sorted sequences with the same elements are the same sequence.
pub proof fn lemma_sorted_unique<T>(a: Seq<T>, b: Seq<T>, le: spec_fn(T, T) -> bool)
    requires
        total_ordering(le),
        sorted_by(a, le),
        sorted_by(b, le),
        a.to_multiset() == b.to_multiset(),
    ensures
        a == b,
    decreases a.len(),
{
    broadcast use group_to_multiset_ensures;

    assert(a.len() == a.to_multiset().len());
    assert(b.len() == b.to_multiset().len());
    if a.len() > 0 {
        let x = a.last();
        let y = b.last();
        assert(a.contains(x) && b.contains(y));
        assert(b.to_multiset().count(x) > 0);
        assert(a.to_multiset().count(y) > 0);
        assert(b.contains(x) && a.contains(y));
        let i = choose|i: int| 0 <= i < b.len() && b[i] == x;
        let j = choose|j: int| 0 <= j < a.len() && a[j] == y;
        assert(le(x, y)) by {
            if i < b.len() - 1 {
                assert(le(b[i], b[b.len() - 1]));
            } else {
                assert(le(x, x));
            }
        }
        assert(le(y, x)) by {
            if j < a.len() - 1 {
                assert(le(a[j], a[a.len() - 1]));
            } else {
                assert(le(y, y));
            }
        }
        assert(x == y);
        assert(a.remove(a.len() - 1) =~= a.drop_last());
        assert(b.remove(b.len() - 1) =~= b.drop_last());
        assert(a.remove(a.len() - 1).to_multiset() =~= a.to_multiset().remove(x));
        assert(b.remove(b.len() - 1).to_multiset() =~= b.to_multiset().remove(y));
        assert forall|k: int, l: int| 0 <= k < l < a.drop_last().len() implies #[trigger] le(
            a.drop_last()[k],
            a.drop_last()[l],
        ) by {
            assert(le(a[k], a[l]));
        }
        assert forall|k: int, l: int| 0 <= k < l < b.drop_last().len() implies #[trigger] le(
            b.drop_last()[k],
            b.drop_last()[l],
        ) by {
            assert(le(b[k], b[l]));
        }
        lemma_sorted_unique(a.drop_last(), b.drop_last(), le);
        assert(a =~= a.drop_last().push(x));
        assert(b =~= b.drop_last().push(y));
    } else {
        assert(a =~= b);
    }
}

/// Sorting leaves a sorted sequence as it is.
pub proof fn lemma_sort_sorted<T>(a: Seq<T>, le: spec_fn(T, T) -> bool)
    requires
        total_ordering(le),
        sorted_by(a, le),
    ensures
        a.sort_by(le) == a,
{
    a.lemma_sort_by_ensures(le);
    lemma_sorted_unique(a.sort_by(le), a, le);
}

/// The elements of `v` in order.
pub fn sorted_copy<T: Ordered>(v: &Vec<T>) -> (out: Vec<T>)
    ensures
        out@ == v@.sort_by(T::order()),
{
    let ghost le = T::order();
    proof {
        T::order_is_total();
    }
    let mut out: Vec<T> = Vec::new();
    let mut i: usize = 0;
    assert(v@.take(0) =~= Seq::<T>::empty());
    assert(out@ =~= Seq::<T>::empty());
    while i < v.len()
        invariant
            i <= v.len(),
            le == T::order(),
            total_ordering(le),
            sorted_by(out@, le),
            out@.to_multiset() == v@.take(i as int).to_multiset(),
            out@.len() == i,
        decreases v.len() - i,
    {
        let x = v[i];
        let mut k: usize = out.len();
        while k > 0 && !T::is_before(out[k - 1], x)
            invariant
                k <= out@.len(),
                le == T::order(),
                forall|j: int| k <= j < out@.len() ==> !#[trigger] le(out@[j], x),
            decreases k,
        {
            k = k - 1;
        }
        let ghost before = out@;
        proof {
            broadcast use group_to_multiset_ensures;

            assert(k > 0 ==> le(before[k - 1], x));
            let ins = before.insert(k as int, x);
            assert(ins.remove(k as int) =~= before);
            assert(ins.remove(k as int).to_multiset() =~= ins.to_multiset().remove(x));
            assert(ins[k as int] == x);
            assert(ins.contains(x));
            assert(ins.to_multiset() =~= before.to_multiset().insert(x));
            assert(v@.take(i + 1) =~= v@.take(i as int).push(x));
            assert forall|a: int, b: int| 0 <= a < b < ins.len() implies #[trigger] le(
                ins[a],
                ins[b],
            ) by {
                if b < k {
                    assert(le(before[a], before[b]));
                } else if b == k {
                    if a < k - 1 {
                        assert(le(before[a], before[k - 1]));
                    }
                } else if a < k {
                    assert(le(before[a], before[b - 1]));
                } else if a == k {
                    assert(!le(before[b - 1], x));
                } else {
                    assert(le(before[a - 1], before[b - 1]));
                }
            }
        }
        out.insert(k, x);
        i = i + 1;
    }
    proof {
        assert(v@.take(i as int) =~= v@);
        v@.lemma_sort_by_ensures(le);
        lemma_sorted_unique(out@, v@.sort_by(le), le);
    }
    out
}

} // verus!
