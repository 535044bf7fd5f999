//! Stable sorting by a strict weak order.
use vstd::prelude::*;

verus! {

/// Items with an order: `precedes` says which of two items comes first.
pub trait Ranked: Sized {
    spec fn precedes(&self, other: &Self) -> bool;

    /// No two items precede each other.
    proof fn precedes_asymmetric(a: &Self, b: &Self)
        ensures
            !(a.precedes(b) && b.precedes(a)),
    ;

    /// Not coming after is transitive.
    proof fn precedes_transitive(a: &Self, b: &Self, c: &Self)
        requires
            !b.precedes(a),
            !c.precedes(b),
        ensures
            !c.precedes(a),
    ;

    fn is_before(&self, other: &Self) -> (b: bool)
        ensures
            b == self.precedes(other),
    ;
}

/// No item precedes one that stands before it.
pub open spec fn in_order<T: Ranked>(s: Seq<T>) -> bool {
    forall|i: int, j: int| 0 <= i < j < s.len() ==> !(#[trigger] s[j]).precedes(#[trigger] &s[i])
}

/// The items that rank the same as `k`.
pub open spec fn tied_with<T: Ranked>(k: T) -> spec_fn(T) -> bool {
    |x: T| !x.precedes(&k) && !k.precedes(&x)
}

/// `out` is `s` in order: the same items, and those that rank the same stand as
/// they stood in `s`.
pub open spec fn stably_sorted<T: Ranked>(s: Seq<T>, out: Seq<T>) -> bool {
    &&& in_order(out)
    &&& out.to_multiset() == s.to_multiset()
    &&& forall|k: T| #[trigger] out.filter(tied_with(k)) == s.filter(tied_with(k))
}

/// What occurs twice in one order occurs twice in the other.
pub proof fn lemma_occurs_twice<T>(s: Seq<T>, out: Seq<T>, i: int, j: int) -> (r: (int, int))
    requires
        out.to_multiset() == s.to_multiset(),
        0 <= i < j < out.len(),
        out[i] == out[j],
    ensures
        0 <= r.0 < r.1 < s.len(),
        s[r.0] == out[i],
        s[r.1] == out[i],
{
    let x = out[i];
    s.to_multiset_ensures();
    out.to_multiset_ensures();
    let less = out.remove(j);
    less.to_multiset_ensures();
    assert(less[i] == x);
    assert(less.contains(x));
    assert(less.to_multiset() == out.to_multiset().remove(x));
    assert(less.to_multiset().count(x) > 0);
    assert(s.to_multiset().count(x) > 1);
    assert(s.contains(x));
    let k = choose|k: int| 0 <= k < s.len() && s[k] == x;
    let rest = s.remove(k);
    rest.to_multiset_ensures();
    assert(rest.to_multiset() == s.to_multiset().remove(x));
    assert(rest.to_multiset().count(x) > 0);
    assert(rest.contains(x));
    let m = choose|m: int| 0 <= m < rest.len() && rest[m] == x;
    if m < k {
        (m, k)
    } else {
        (k, m + 1)
    }
}

proof fn lemma_filter_none<T>(s: Seq<T>, pred: spec_fn(T) -> bool)
    requires
        forall|i: int| 0 <= i < s.len() ==> !pred(#[trigger] s[i]),
    ensures
        s.filter(pred).len() == 0,
    decreases s.len(),
{
    reveal_with_fuel(Seq::filter, 2);
    if s.len() > 0 {
        lemma_filter_none(s.drop_last(), pred);
    }
}

proof fn lemma_insert_filter<T>(s: Seq<T>, p: int, x: T, pred: spec_fn(T) -> bool)
    requires
        0 <= p <= s.len(),
        pred(x) ==> forall|i: int| 0 <= i < p ==> !pred(#[trigger] s[i]),
    ensures
        s.insert(p, x).filter(pred) == seq![x].filter(pred) + s.filter(pred),
{
    let head = s.subrange(0, p);
    let tail = s.subrange(p, s.len() as int);
    assert(s =~= head + tail);
    assert(s.insert(p, x) =~= (head + seq![x]) + tail);
    Seq::filter_distributes_over_add(head + seq![x], tail, pred);
    Seq::filter_distributes_over_add(head, seq![x], pred);
    Seq::filter_distributes_over_add(head, tail, pred);
    reveal_with_fuel(Seq::filter, 2);
    assert(seq![x].drop_last() =~= Seq::<T>::empty());
    if pred(x) {
        lemma_filter_none(head, pred);
        assert(seq![x].filter(pred) =~= seq![x]);
        assert(s.insert(p, x).filter(pred) =~= seq![x].filter(pred) + s.filter(pred));
    } else {
        assert(seq![x].filter(pred) =~= Seq::<T>::empty());
        assert(s.insert(p, x).filter(pred) =~= seq![x].filter(pred) + s.filter(pred));
    }
}

/// Sorts stably.
pub fn stable_sort<T: Ranked>(items: Vec<T>) -> (out: Vec<T>)
    ensures
        stably_sorted(items@, out@),
{
    let mut rest = items;
    let mut out: Vec<T> = Vec::new();
    proof {
        assert(rest@.subrange(rest.len() as int, rest.len() as int) =~= Seq::<T>::empty());
    }
    while rest.len() > 0
        invariant
            rest.len() <= items.len(),
            rest@ == items@.subrange(0, rest.len() as int),
            stably_sorted(items@.subrange(rest.len() as int, items.len() as int), out@),
        decreases rest.len(),
    {
        let ghost sofar = items@.subrange(rest.len() as int, items.len() as int);
        let ghost before = out@;
        let x = rest.pop().unwrap();
        let mut p: usize = 0;
        while p < out.len() && out[p].is_before(&x)
            invariant
                p <= out.len(),
                forall|i: int| 0 <= i < p ==> (#[trigger] out@[i]).precedes(&x),
            decreases out.len() - p,
        {
            p = p + 1;
        }
        out.insert(p, x);
        proof {
            let now = items@.subrange(rest.len() as int, items.len() as int);
            assert(now =~= seq![x] + sofar);
            assert(rest@ =~= items@.subrange(0, rest.len() as int));
            assert forall|i: int, j: int| 0 <= i < j < out@.len() implies !(
            #[trigger] out@[j]).precedes(#[trigger] &out@[i]) by {
                if j < p {
                    assert(out@[j] == before[j] && out@[i] == before[i]);
                } else if j == p {
                    T::precedes_asymmetric(&before[i], &x);
                } else if i < p {
                    assert(out@[j] == before[j - 1] && out@[i] == before[i]);
                } else if i == p {
                    assert(out@[j] == before[j - 1]);
                    if j - 1 != p {
                        T::precedes_transitive(&x, &before[p as int], &before[j - 1]);
                    }
                } else {
                    assert(out@[j] == before[j - 1] && out@[i] == before[i - 1]);
                }
            }
            vstd::seq_lib::to_multiset_insert(before, p as int, x);
            vstd::seq_lib::lemma_multiset_commutative(seq![x], sofar);
            assert(seq![x].to_multiset() =~= vstd::multiset::Multiset::empty().insert(x)) by {
                Seq::<T>::empty().to_multiset_ensures();
                assert(seq![x] =~= Seq::<T>::empty().push(x));
            }
            assert(now.to_multiset() =~= sofar.to_multiset().insert(x));
            assert forall|k: T| #[trigger] out@.filter(tied_with(k)) == now.filter(tied_with(k)) by {
                let pred = tied_with(k);
                assert(before.filter(pred) == sofar.filter(pred));
                if pred(x) {
                    assert forall|i: int| 0 <= i < p implies !pred(#[trigger] before[i]) by {
                        T::precedes_asymmetric(&before[i], &x);
                        if pred(before[i]) {
                            T::precedes_transitive(&x, &k, &before[i]);
                            assert(false);
                        }
                    }
                }
                lemma_insert_filter(before, p as int, x, pred);
                Seq::filter_distributes_over_add(seq![x], sofar, pred);
            }
        }
    }
    proof {
        assert(items@.subrange(0, items.len() as int) =~= items@);
    }
    out
}

proof fn lemma_filter_all<T>(s: Seq<T>, pred: spec_fn(T) -> bool)
    requires
        forall|i: int| 0 <= i < s.len() ==> pred(#[trigger] s[i]),
    ensures
        s.filter(pred) == s,
    decreases s.len(),
{
    reveal_with_fuel(Seq::filter, 2);
    if s.len() > 0 {
        lemma_filter_all(s.drop_last(), pred);
        assert(s =~= s.drop_last().push(s.last()));
    } else {
        assert(s.filter(pred) =~= s);
    }
}

proof fn lemma_filter_multiset<T>(s: Seq<T>, pred: spec_fn(T) -> bool)
    ensures
        s.filter(pred).to_multiset() =~= s.to_multiset().filter(pred),
    decreases s.len(),
{
    reveal_with_fuel(Seq::filter, 2);
    if s.len() > 0 {
        let head = s.drop_last();
        lemma_filter_multiset(head, pred);
        assert(s =~= head.push(s.last()));
        head.to_multiset_ensures();
        head.filter(pred).to_multiset_ensures();
    } else {
        s.to_multiset_ensures();
        s.filter(pred).to_multiset_ensures();
        assert(s.to_multiset() =~= vstd::multiset::Multiset::empty());
    }
}

/// The items that `k` does not precede.
spec fn not_after<T: Ranked>(k: T) -> spec_fn(T) -> bool {
    |x: T| !k.precedes(&x)
}

proof fn lemma_not_late<T: Ranked>(x: Seq<T>, y: Seq<T>, i: int)
    requires
        in_order(x),
        in_order(y),
        x.to_multiset() == y.to_multiset(),
        0 <= i < x.len(),
        i < y.len(),
    ensures
        !x[i].precedes(&y[i]),
{
    if x[i].precedes(&y[i]) {
        let pred = not_after(x[i]);
        let (a, b) = (x.subrange(0, i + 1), x.subrange(i + 1, x.len() as int));
        let (c, d) = (y.subrange(0, i), y.subrange(i, y.len() as int));
        assert(x =~= a + b);
        assert(y =~= c + d);
        assert forall|j: int| 0 <= j < a.len() implies pred(#[trigger] a[j]) by {
            assert(a[j] == x[j]);
            T::precedes_asymmetric(&x[i], &x[i]);
        }
        assert forall|j: int| 0 <= j < d.len() implies !pred(#[trigger] d[j]) by {
            assert(d[j] == y[i + j]);
            if !x[i].precedes(&y[i + j]) {
                if j > 0 {
                    T::precedes_transitive(&y[i], &y[i + j], &x[i]);
                }
                assert(false);
            }
        }
        Seq::filter_distributes_over_add(a, b, pred);
        Seq::filter_distributes_over_add(c, d, pred);
        lemma_filter_all(a, pred);
        lemma_filter_none(d, pred);
        c.lemma_filter_len(pred);
        lemma_filter_multiset(x, pred);
        lemma_filter_multiset(y, pred);
        x.filter(pred).to_multiset_ensures();
        y.filter(pred).to_multiset_ensures();
    }
}

/// In what order items are sorted does not depend on the order in which they came: sorted
/// lists of the same items rank the same place by place.
pub proof fn law_order_of_arrival_does_not_matter<T: Ranked>(
    a: Seq<T>,
    b: Seq<T>,
    x: Seq<T>,
    y: Seq<T>,
)
    requires
        a.to_multiset() == b.to_multiset(),
        stably_sorted(a, x),
        stably_sorted(b, y),
    ensures
        x.len() == y.len(),
        forall|i: int|
            #![trigger x[i]]
            #![trigger y[i]]
            0 <= i < x.len() ==> !x[i].precedes(&y[i]) && !y[i].precedes(&x[i]),
{
    x.to_multiset_ensures();
    y.to_multiset_ensures();
    assert forall|i: int|
        #![trigger x[i]]
        #![trigger y[i]]
        0 <= i < x.len() implies !x[i].precedes(&y[i]) && !y[i].precedes(&x[i]) by {
        lemma_not_late(x, y, i);
        lemma_not_late(y, x, i);
    }
}

} // verus!
