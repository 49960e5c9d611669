//! Stable sorting of values that say which of two comes first.
use vstd::prelude::*;

verus! {

/// Values with an order in which two values may rank the same.
pub trait Ranked: Sized {
    /// Whether `self` ranks strictly before `other`.
    spec fn ranks_before(self, other: Self) -> bool;

    fn is_before(&self, other: &Self) -> (r: bool)
        ensures
            r == self.ranks_before(*other),
    ;

    /// No value ranks before itself, and "not after" carries over.
    proof fn rank_is_weak_order(a: Self, b: Self, c: Self)
        ensures
            !(a.ranks_before(b) && b.ranks_before(a)),
            !b.ranks_before(a) && !c.ranks_before(b) ==> !c.ranks_before(a),
    ;
}

/// `to` is `from` read in the order of the positions `order`: ranked, and with values of
/// the same rank in the order in which they stood.
pub open spec fn is_ordering<T: Ranked>(from: Seq<T>, to: Seq<T>, order: Seq<int>) -> bool {
    &&& to.len() == from.len()
    &&& order.len() == from.len()
    &&& forall|i: int|
        0 <= i < order.len() ==> 0 <= #[trigger] order[i] < from.len() && to[i] == from[order[i]]
    &&& forall|p: int| 0 <= p < from.len() ==> #[trigger] order.contains(p)
    &&& forall|i: int, j: int|
        0 <= i < j < to.len() ==> !(#[trigger] to[j]).ranks_before(#[trigger] to[i])
    &&& forall|i: int, j: int|
        0 <= i < j < to.len() && !(#[trigger] to[i]).ranks_before(#[trigger] to[j]) ==> order[i]
            < order[j]
}

/// `to` holds the values of `from`, each as often, ranked and stable.
pub open spec fn stably_sorted<T: Ranked>(from: Seq<T>, to: Seq<T>) -> bool {
    exists|order: Seq<int>| is_ordering(from, to, order)
}

/// The invariant of the sort: `to` orders the positions of `from` from `start` on.
spec fn is_ordering_from<T: Ranked>(
    from: Seq<T>,
    start: int,
    to: Seq<T>,
    order: Seq<int>,
) -> bool {
    &&& 0 <= start <= from.len()
    &&& to.len() == from.len() - start
    &&& order.len() == to.len()
    &&& forall|i: int|
        0 <= i < order.len() ==> start <= #[trigger] order[i] < from.len() && to[i]
            == from[order[i]]
    &&& forall|p: int| start <= p < from.len() ==> #[trigger] order.contains(p)
    &&& forall|i: int, j: int|
        0 <= i < j < to.len() ==> !(#[trigger] to[j]).ranks_before(#[trigger] to[i])
    &&& forall|i: int, j: int|
        0 <= i < j < to.len() && !(#[trigger] to[i]).ranks_before(#[trigger] to[j]) ==> order[i]
            < order[j]
}

proof fn lemma_insert<T: Ranked>(
    from: Seq<T>,
    start: int,
    to: Seq<T>,
    order: Seq<int>,
    at: int,
)
    requires
        is_ordering_from(from, start, to, order),
        start > 0,
        0 <= at <= to.len(),
        forall|i: int| 0 <= i < at ==> (#[trigger] to[i]).ranks_before(from[start - 1]),
        at < to.len() ==> !to[at].ranks_before(from[start - 1]),
    ensures
        is_ordering_from(
            from,
            start - 1,
            to.insert(at, from[start - 1]),
            order.insert(at, start - 1),
        ),
{
    let x = from[start - 1];
    let new_to = to.insert(at, x);
    let new_order = order.insert(at, start - 1);
    assert forall|p: int| start - 1 <= p < from.len() implies #[trigger] new_order.contains(
        p,
    ) by {
        if p == start - 1 {
            assert(new_order[at] == p);
        } else {
            assert(order.contains(p));
            let i = choose|i: int| 0 <= i < order.len() && order[i] == p;
            if i < at {
                assert(new_order[i] == p);
            } else {
                assert(new_order[i + 1] == p);
            }
        }
    }
    assert forall|i: int, j: int| 0 <= i < j < new_to.len() implies {
        &&& !(#[trigger] new_to[j]).ranks_before(#[trigger] new_to[i])
        &&& !new_to[i].ranks_before(new_to[j]) ==> new_order[i] < new_order[j]
    } by {
        let a = if i < at { i } else { i - 1 };
        let b = if j < at { j } else { j - 1 };
        if j < at || i > at || (i < at && j > at) {
            assert(new_to[i] == to[a] && new_to[j] == to[b]);
            assert(new_order[i] == order[a] && new_order[j] == order[b]);
        } else if j == at {
            assert(to[i].ranks_before(x));
            T::rank_is_weak_order(to[i], x, x);
        } else {
            // i == at
            T::rank_is_weak_order(x, to[at], to[b]);
            assert(new_to[j] == to[b]);
            assert(order[b] >= start);
        }
    }
}

/// The values of `list` by rank; values of the same rank keep their order.
pub fn sort_stable<T: Ranked>(list: Vec<T>) -> (r: Vec<T>)
    ensures
        stably_sorted(list@, r@),
{
    let ghost from = list@;
    let mut rest = list;
    let mut out: Vec<T> = Vec::new();
    let ghost mut order: Seq<int> = Seq::empty();
    while rest.len() > 0
        invariant
            rest@ == from.take(rest@.len() as int),
            rest@.len() <= from.len(),
            is_ordering_from(from, rest@.len() as int, out@, order),
        decreases rest.len(),
    {
        let ghost start = rest@.len() as int;
        let value = match rest.pop() {
            Some(value) => value,
            None => {
                return out;
            },
        };
        proof {
            assert(value == from[start - 1]);
            assert(rest@ =~= from.take(start - 1));
        }
        let mut at: usize = 0;
        while at < out.len() && out[at].is_before(&value)
            invariant
                at <= out@.len(),
                forall|i: int| 0 <= i < at ==> (#[trigger] out@[i]).ranks_before(value),
            decreases out.len() - at,
        {
            at = at + 1;
        }
        proof {
            lemma_insert(from, start, out@, order, at as int);
            order = order.insert(at as int, start - 1);
        }
        out.insert(at, value);
    }
    proof {
        assert(is_ordering(from, out@, order));
    }
    out
}

proof fn lemma_same_position<T: Ranked>(
    from: Seq<T>,
    a: Seq<T>,
    b: Seq<T>,
    first: Seq<int>,
    second: Seq<int>,
    i: int,
)
    requires
        is_ordering(from, a, first),
        is_ordering(from, b, second),
        0 <= i < from.len(),
    ensures
        first[i] == second[i],
    decreases i,
{
    assert forall|k: int| 0 <= k < i implies first[k] == second[k] by {
        lemma_same_position(from, a, b, first, second, k);
    }
    let p = first[i];
    let q = second[i];
    if p != q {
        assert(first.contains(q));
        assert(second.contains(p));
        let j = choose|j: int| 0 <= j < first.len() && first[j] == q;
        let k = choose|k: int| 0 <= k < second.len() && second[k] == p;
        if j < i {
            assert(second[j] == q);
            assert(b[j] == from[q] && b[i] == from[q]);
            T::rank_is_weak_order(b[j], b[i], b[i]);
            assert(second[j] < second[i]);
        }
        if k < i {
            assert(first[k] == p);
            T::rank_is_weak_order(a[k], a[i], a[i]);
            assert(first[k] < first[i]);
        }
        assert(a[i] == from[p] && a[j] == from[q]);
        assert(b[i] == from[q] && b[k] == from[p]);
        T::rank_is_weak_order(from[p], from[q], from[q]);
        assert(!a[j].ranks_before(a[i]));
        assert(!b[k].ranks_before(b[i]));
    }
}

/// No place is read twice.
pub proof fn lemma_places_differ<T: Ranked>(
    from: Seq<T>,
    to: Seq<T>,
    order: Seq<int>,
    i: int,
    j: int,
)
    requires
        is_ordering(from, to, order),
        0 <= i < order.len(),
        0 <= j < order.len(),
        i != j,
    ensures
        order[i] != order[j],
{
    if order[i] == order[j] {
        T::rank_is_weak_order(to[i], to[j], to[j]);
        assert(to[i] == from[order[i]]);
        assert(to[j] == from[order[j]]);
        if i < j {
            assert(order[i] < order[j]);
        } else {
            assert(order[j] < order[i]);
        }
    }
}

/// There is one way to sort a list: two results that are ranked and stable are the same.
pub proof fn sorting_is_unique<T: Ranked>(from: Seq<T>, a: Seq<T>, b: Seq<T>)
    requires
        stably_sorted(from, a),
        stably_sorted(from, b),
    ensures
        a == b,
{
    let first = choose|order: Seq<int>| is_ordering(from, a, order);
    let second = choose|order: Seq<int>| is_ordering(from, b, order);
    assert forall|i: int| 0 <= i < a.len() implies a[i] == b[i] by {
        lemma_same_position(from, a, b, first, second, i);
        assert(a[i] == from[first[i]]);
        assert(b[i] == from[second[i]]);
    }
    assert(a =~= b);
}


// ---------------------------------------------------------------------------------------
// Sums
// ---------------------------------------------------------------------------------------

/// The sum of what `weight` gives to each value of the list.
pub open spec fn sum_of<T>(list: Seq<T>, weight: spec_fn(T) -> nat) -> nat
    decreases list.len(),
{
    if list.len() == 0 {
        0
    } else {
        sum_of(list.drop_last(), weight) + weight(list.last())
    }
}

pub proof fn lemma_sum_without<T>(list: Seq<T>, weight: spec_fn(T) -> nat, p: int)
    requires
        0 <= p < list.len(),
    ensures
        sum_of(list, weight) == sum_of(list.remove(p), weight) + weight(list[p]),
    decreases list.len(),
{
    if p == list.len() - 1 {
        assert(list.remove(p) =~= list.drop_last());
    } else {
        lemma_sum_without(list.drop_last(), weight, p);
        assert(list.remove(p).drop_last() =~= list.drop_last().remove(p));
        assert(list.remove(p).last() == list.last());
    }
}

/// `order` lists every position of `from` once, and `to` is `from` read in that order.
spec fn is_rearrangement<T>(from: Seq<T>, to: Seq<T>, order: Seq<int>) -> bool {
    &&& to.len() == from.len()
    &&& order.len() == from.len()
    &&& forall|i: int|
        0 <= i < order.len() ==> 0 <= #[trigger] order[i] < from.len() && to[i] == from[order[i]]
    &&& forall|i: int, j: int| 0 <= i < j < order.len() ==> order[i] != order[j]
}

/// Without its last place a rearrangement is one of what is left.
proof fn lemma_one_less<T>(from: Seq<T>, to: Seq<T>, order: Seq<int>)
    requires
        is_rearrangement(from, to, order),
        from.len() > 0,
    ensures
        ({
            let p = order.last();
            let left = order.drop_last().map_values(|q: int| if q > p { q - 1 } else { q });
            is_rearrangement(from.remove(p), to.drop_last(), left)
        }),
{
    let n = from.len() as int;
    let p = order[n - 1];
    let rest = from.remove(p);
    let left = order.drop_last().map_values(|q: int| if q > p { q - 1 } else { q });
    assert forall|i: int| 0 <= i < left.len() implies 0 <= #[trigger] left[i] < rest.len()
        && to.drop_last()[i] == rest[left[i]] by {
        assert(order[i] != order[n - 1]);
        assert(0 <= order[i] < from.len() && to[i] == from[order[i]]);
    }
    assert forall|i: int, j: int| 0 <= i < j < left.len() implies left[i] != left[j] by {
        assert(order[i] != order[j]);
        assert(order[i] != order[n - 1]);
        assert(order[j] != order[n - 1]);
    }
}

proof fn lemma_sum_rearranged<T>(
    from: Seq<T>,
    to: Seq<T>,
    order: Seq<int>,
    weight: spec_fn(T) -> nat,
)
    requires
        is_rearrangement(from, to, order),
    ensures
        sum_of(from, weight) == sum_of(to, weight),
    decreases from.len(),
{
    if from.len() > 0 {
        let n = from.len() as int;
        let p = order[n - 1];
        let rest = from.remove(p);
        let left = order.drop_last().map_values(|q: int| if q > p { q - 1 } else { q });
        lemma_one_less(from, to, order);
        lemma_sum_without(from, weight, p);
        lemma_sum_rearranged(rest, to.drop_last(), left, weight);
        assert(to.last() == from[p]);
    }
}

proof fn lemma_order_is_rearrangement<T: Ranked>(from: Seq<T>, to: Seq<T>, order: Seq<int>)
    requires
        is_ordering(from, to, order),
    ensures
        is_rearrangement(from, to, order),
{
    assert forall|i: int, j: int| 0 <= i < j < order.len() implies order[i] != order[j] by {
        if order[i] == order[j] {
            assert(to[i] == from[order[i]]);
            assert(to[j] == from[order[j]]);
            T::rank_is_weak_order(to[i], to[j], to[j]);
            assert(order[i] < order[j]);
        }
    }
}

/// Sorting keeps every sum over the list.
pub proof fn sorting_keeps_sums<T: Ranked>(from: Seq<T>, to: Seq<T>, weight: spec_fn(T) -> nat)
    requires
        stably_sorted(from, to),
    ensures
        sum_of(from, weight) == sum_of(to, weight),
{
    let order = choose|order: Seq<int>| is_ordering(from, to, order);
    lemma_order_is_rearrangement(from, to, order);
    lemma_sum_rearranged(from, to, order, weight);
}

proof fn lemma_members_rearranged<T>(from: Seq<T>, to: Seq<T>, order: Seq<int>)
    requires
        is_rearrangement(from, to, order),
    ensures
        from.to_multiset() == to.to_multiset(),
    decreases from.len(),
{
    if from.len() > 0 {
        let n = from.len() as int;
        let p = order[n - 1];
        let rest = from.remove(p);
        let left = order.drop_last().map_values(|q: int| if q > p { q - 1 } else { q });
        lemma_one_less(from, to, order);
        lemma_members_rearranged(rest, to.drop_last(), left);
        from.to_multiset_ensures();
        to.drop_last().to_multiset_ensures();
        assert(to =~= to.drop_last().push(from[p]));
        assert(rest.to_multiset() =~= from.to_multiset().remove(from[p]));
        assert(from.contains(from[p]));
        assert(from.to_multiset() =~= rest.to_multiset().insert(from[p]));
    } else {
        assert(from =~= to);
    }
}

/// Sorting keeps the members, each as often as it was there.
pub proof fn sorting_keeps_members<T: Ranked>(from: Seq<T>, to: Seq<T>)
    requires
        stably_sorted(from, to),
    ensures
        from.to_multiset() == to.to_multiset(),
{
    let order = choose|order: Seq<int>| is_ordering(from, to, order);
    lemma_order_is_rearrangement(from, to, order);
    lemma_members_rearranged(from, to, order);
}

/// What is made of each value of two lists with the same members has the same members.
pub proof fn lemma_members_mapped<T, W>(a: Seq<T>, b: Seq<T>, f: spec_fn(T) -> W)
    requires
        a.to_multiset() == b.to_multiset(),
    ensures
        a.map_values(f).to_multiset() == b.map_values(f).to_multiset(),
    decreases a.len(),
{
    a.to_multiset_ensures();
    b.to_multiset_ensures();
    let n = a.len() - 1;
    if a.len() > 0 {
        let x = a.last();
        assert(a.contains(x));
        assert(b.to_multiset().count(x) > 0);
        let p = choose|p: int| 0 <= p < b.len() && b[p] == x;
        assert(a.remove(n) =~= a.drop_last());
        assert(a.drop_last().to_multiset() =~= b.remove(p).to_multiset());
        lemma_members_mapped(a.drop_last(), b.remove(p), f);
        let (ma, mb) = (a.map_values(f), b.map_values(f));
        ma.to_multiset_ensures();
        mb.to_multiset_ensures();
        assert(ma.remove(n) =~= a.drop_last().map_values(f));
        assert(mb.remove(p) =~= b.remove(p).map_values(f));
        assert(ma.contains(ma[n]) && mb.contains(mb[p]));
        assert(ma[n] == f(x) && mb[p] == f(x));
        assert(ma.to_multiset() =~= ma.remove(n).to_multiset().insert(f(x)));
        assert(mb.to_multiset() =~= mb.remove(p).to_multiset().insert(f(x)));
    } else {
        assert(a.map_values(f) =~= b.map_values(f));
    }
}

/// Lists with the same members have the same sums.
pub proof fn members_decide_sums<T>(a: Seq<T>, b: Seq<T>, weight: spec_fn(T) -> nat)
    requires
        a.to_multiset() == b.to_multiset(),
    ensures
        a.len() == b.len(),
        sum_of(a, weight) == sum_of(b, weight),
    decreases a.len(),
{
    a.to_multiset_ensures();
    b.to_multiset_ensures();
    if a.len() > 0 {
        let x = a.last();
        assert(a.contains(x));
        assert(b.to_multiset().count(x) > 0);
        let p = choose|p: int| 0 <= p < b.len() && b[p] == x;
        lemma_sum_without(b, weight, p);
        assert(a.remove(a.len() - 1) =~= a.drop_last());
        assert(a.drop_last().to_multiset() =~= b.remove(p).to_multiset());
        members_decide_sums(a.drop_last(), b.remove(p), weight);
    }
}

/// A list that is ranked already stays as it is when it is sorted.
pub proof fn sorted_stays_sorted<T: Ranked>(from: Seq<T>, to: Seq<T>)
    requires
        stably_sorted(from, to),
    ensures
        stably_sorted(to, to),
{
    let order = choose|order: Seq<int>| is_ordering(from, to, order);
    let places = Seq::new(to.len(), |i: int| i);
    assert forall|p: int| 0 <= p < to.len() implies #[trigger] places.contains(p) by {
        assert(places[p] == p);
    }
    assert(is_ordering(to, to, places));
}

/// No two places of the list rank the same.
pub open spec fn ranks_differ<T: Ranked>(list: Seq<T>) -> bool {
    forall|i: int, j: int|
        0 <= i < j < list.len() ==> (#[trigger] list[i]).ranks_before(#[trigger] list[j])
            || list[j].ranks_before(list[i])
}

proof fn lemma_strictly_ranked<T: Ranked>(from: Seq<T>, to: Seq<T>, i: int, j: int)
    requires
        stably_sorted(from, to),
        ranks_differ(from),
        0 <= i < j < to.len(),
    ensures
        to[i].ranks_before(to[j]),
{
    let order = choose|order: Seq<int>| is_ordering(from, to, order);
    assert(!to[j].ranks_before(to[i]));
    if !to[i].ranks_before(to[j]) {
        assert(order[i] < order[j]);
        assert(to[i] == from[order[i]] && to[j] == from[order[j]]);
    }
}

proof fn lemma_same_member<T: Ranked>(a: Seq<T>, b: Seq<T>, first: Seq<T>, second: Seq<T>, i: int)
    requires
        stably_sorted(a, first),
        stably_sorted(b, second),
        ranks_differ(a),
        ranks_differ(b),
        first.to_multiset() == second.to_multiset(),
        0 <= i < first.len(),
        first.len() == second.len(),
    ensures
        first[i] == second[i],
    decreases i,
{
    assert forall|k: int| 0 <= k < i implies first[k] == second[k] by {
        lemma_same_member(a, b, first, second, k);
    }
    first.to_multiset_ensures();
    second.to_multiset_ensures();
    assert(first.contains(first[i]));
    assert(second.contains(second[i]));
    assert(second.to_multiset().count(first[i]) > 0);
    assert(first.to_multiset().count(second[i]) > 0);
    let j = choose|j: int| 0 <= j < second.len() && second[j] == first[i];
    let k = choose|k: int| 0 <= k < first.len() && first[k] == second[i];
    T::rank_is_weak_order(first[i], second[i], first[i]);
    T::rank_is_weak_order(first[i], first[i], first[i]);
    T::rank_is_weak_order(second[i], second[i], second[i]);
    if j < i {
        lemma_strictly_ranked(a, first, j, i);
    }
    if k < i {
        lemma_strictly_ranked(b, second, k, i);
    }
    if i < j {
        lemma_strictly_ranked(b, second, i, j);
    }
    if i < k {
        lemma_strictly_ranked(a, first, i, k);
    }
}

/// Where no two values rank the same, the order in which they came does not matter.
pub proof fn sorting_forgets_order<T: Ranked>(
    a: Seq<T>,
    b: Seq<T>,
    first: Seq<T>,
    second: Seq<T>,
)
    requires
        a.to_multiset() == b.to_multiset(),
        ranks_differ(a),
        ranks_differ(b),
        stably_sorted(a, first),
        stably_sorted(b, second),
    ensures
        first == second,
{
    sorting_keeps_members(a, first);
    sorting_keeps_members(b, second);
    first.to_multiset_ensures();
    second.to_multiset_ensures();
    assert forall|i: int| 0 <= i < first.len() implies first[i] == second[i] by {
        lemma_same_member(a, b, first, second, i);
    }
    assert(first =~= second);
}


// ---------------------------------------------------------------------------------------
// Orders by a relation
// ---------------------------------------------------------------------------------------

/// `to` is `from` read in the order of the positions `order`, ranked by `before` and stable.
pub open spec fn is_ordering_by<T>(
    from: Seq<T>,
    to: Seq<T>,
    order: Seq<int>,
    before: spec_fn(T, T) -> bool,
) -> bool {
    &&& to.len() == from.len()
    &&& order.len() == from.len()
    &&& forall|i: int|
        0 <= i < order.len() ==> 0 <= #[trigger] order[i] < from.len() && to[i] == from[order[i]]
    &&& forall|p: int| 0 <= p < from.len() ==> #[trigger] order.contains(p)
    &&& forall|i: int, j: int|
        0 <= i < j < to.len() ==> !before(#[trigger] to[j], #[trigger] to[i])
    &&& forall|i: int, j: int|
        0 <= i < j < to.len() && !before(#[trigger] to[i], #[trigger] to[j]) ==> order[i] < order[j]
}

pub open spec fn stably_sorted_by<T>(
    from: Seq<T>,
    to: Seq<T>,
    before: spec_fn(T, T) -> bool,
) -> bool {
    exists|order: Seq<int>| is_ordering_by(from, to, order, before)
}

/// `before` never holds both ways.
pub open spec fn is_one_way<T>(before: spec_fn(T, T) -> bool) -> bool {
    forall|a: T, b: T| !(#[trigger] before(a, b) && before(b, a))
}

/// The list sorted by `before`.
pub open spec fn arranged<T>(list: Seq<T>, before: spec_fn(T, T) -> bool) -> Seq<T> {
    choose|to: Seq<T>| stably_sorted_by(list, to, before)
}

/// What holds of sorted values holds of what they stand for, where that decides their rank.
pub proof fn sorting_carries_over<T: Ranked, W>(
    from: Seq<T>,
    to: Seq<T>,
    stands_for: spec_fn(T) -> W,
    before: spec_fn(W, W) -> bool,
)
    requires
        stably_sorted(from, to),
        forall|a: T, b: T|
            #[trigger] a.ranks_before(b) == before(stands_for(a), stands_for(b)),
    ensures
        stably_sorted_by(from.map_values(stands_for), to.map_values(stands_for), before),
{
    let order = choose|order: Seq<int>| is_ordering(from, to, order);
    let source = from.map_values(stands_for);
    let target = to.map_values(stands_for);
    assert forall|i: int, j: int| 0 <= i < j < target.len() implies {
        &&& !before(#[trigger] target[j], #[trigger] target[i])
        &&& !before(target[i], target[j]) ==> order[i] < order[j]
    } by {
        assert(!to[j].ranks_before(to[i]));
        assert(!to[i].ranks_before(to[j]) ==> order[i] < order[j]);
    }
    assert(is_ordering_by(source, target, order, before));
}

proof fn lemma_same_position_by<T>(
    from: Seq<T>,
    a: Seq<T>,
    b: Seq<T>,
    first: Seq<int>,
    second: Seq<int>,
    before: spec_fn(T, T) -> bool,
    i: int,
)
    requires
        is_one_way(before),
        is_ordering_by(from, a, first, before),
        is_ordering_by(from, b, second, before),
        0 <= i < from.len(),
    ensures
        first[i] == second[i],
    decreases i,
{
    assert forall|k: int| 0 <= k < i implies first[k] == second[k] by {
        lemma_same_position_by(from, a, b, first, second, before, k);
    }
    let p = first[i];
    let q = second[i];
    if p != q {
        assert(first.contains(q));
        assert(second.contains(p));
        let j = choose|j: int| 0 <= j < first.len() && first[j] == q;
        let k = choose|k: int| 0 <= k < second.len() && second[k] == p;
        if j < i {
            assert(second[j] == q);
            assert(b[j] == from[q] && b[i] == from[q]);
            assert(!(before(b[j], b[i]) && before(b[i], b[j])));
            assert(second[j] < second[i]);
        }
        if k < i {
            assert(first[k] == p);
            assert(!(before(a[k], a[i]) && before(a[i], a[k])));
            assert(first[k] < first[i]);
        }
        assert(a[i] == from[p] && a[j] == from[q]);
        assert(b[i] == from[q] && b[k] == from[p]);
        assert(!(before(from[p], from[q]) && before(from[q], from[p])));
        assert(!before(a[j], a[i]));
        assert(!before(b[k], b[i]));
    }
}

/// A sorted list is the one that `arranged` names.
pub proof fn sorted_is_arranged<T>(from: Seq<T>, to: Seq<T>, before: spec_fn(T, T) -> bool)
    requires
        is_one_way(before),
        stably_sorted_by(from, to, before),
    ensures
        to == arranged(from, before),
{
    let other = arranged(from, before);
    assert(stably_sorted_by(from, other, before));
    let first = choose|order: Seq<int>| is_ordering_by(from, to, order, before);
    let second = choose|order: Seq<int>| is_ordering_by(from, other, order, before);
    assert forall|i: int| 0 <= i < to.len() implies to[i] == other[i] by {
        lemma_same_position_by(from, to, other, first, second, before, i);
        assert(to[i] == from[first[i]]);
        assert(other[i] == from[second[i]]);
    }
    assert(to =~= other);
}

/// `before` is an order in which two values may rank the same: it never holds both ways, and
/// "not after" carries over.
pub open spec fn is_weak_order<T>(before: spec_fn(T, T) -> bool) -> bool {
    &&& is_one_way(before)
    &&& forall|a: T, b: T, c: T|
        !(#[trigger] before(b, a)) && !(#[trigger] before(c, b)) ==> !before(c, a)
}

/// The first place in a sorted list before which `x` may stand.
spec fn place_for<T>(to: Seq<T>, x: T, before: spec_fn(T, T) -> bool, at: int) -> int
    decreases to.len() - at,
{
    if 0 <= at < to.len() && !before(x, to[at]) {
        place_for(to, x, before, at + 1)
    } else {
        at
    }
}

proof fn lemma_place_for<T>(to: Seq<T>, x: T, before: spec_fn(T, T) -> bool, at: int)
    requires
        0 <= at <= to.len(),
        forall|i: int| 0 <= i < at ==> !before(x, #[trigger] to[i]),
    ensures
        at <= place_for(to, x, before, at) <= to.len(),
        forall|i: int| 0 <= i < place_for(to, x, before, at) ==> !before(x, #[trigger] to[i]),
        place_for(to, x, before, at) < to.len() ==> before(x, to[place_for(to, x, before, at)]),
    decreases to.len() - at,
{
    if at < to.len() && !before(x, to[at]) {
        lemma_place_for(to, x, before, at + 1);
    }
}

/// Every list can be sorted by every such order.
proof fn lemma_can_be_sorted<T>(list: Seq<T>, before: spec_fn(T, T) -> bool) -> (r: (
    Seq<T>,
    Seq<int>,
))
    requires
        is_weak_order(before),
    ensures
        is_ordering_by(list, r.0, r.1, before),
    decreases list.len(),
{
    if list.len() == 0 {
        (Seq::empty(), Seq::empty())
    } else {
        let n = list.len() - 1;
        let x = list.last();
        let (to, order) = lemma_can_be_sorted(list.drop_last(), before);
        let at = place_for(to, x, before, 0);
        lemma_place_for(to, x, before, 0);
        let new_to = to.insert(at, x);
        let new_order = order.insert(at, n);
        assert forall|i: int| 0 <= i < new_order.len() implies 0 <= #[trigger] new_order[i]
            < list.len() && new_to[i] == list[new_order[i]] by {
            if i < at {
                assert(new_order[i] == order[i]);
            } else if i > at {
                assert(new_order[i] == order[i - 1]);
            }
        }
        assert forall|p: int| 0 <= p < list.len() implies #[trigger] new_order.contains(p) by {
            if p == n {
                assert(new_order[at] == p);
            } else {
                assert(order.contains(p));
                let i = choose|i: int| 0 <= i < order.len() && order[i] == p;
                if i < at {
                    assert(new_order[i] == p);
                } else {
                    assert(new_order[i + 1] == p);
                }
            }
        }
        assert forall|i: int, j: int| 0 <= i < j < new_to.len() implies {
            &&& !before(#[trigger] new_to[j], #[trigger] new_to[i])
            &&& !before(new_to[i], new_to[j]) ==> new_order[i] < new_order[j]
        } by {
            let a = if i < at { i } else { i - 1 };
            let b = if j < at { j } else { j - 1 };
            if j < at || i > at || (i < at && j > at) {
                assert(new_to[i] == to[a] && new_to[j] == to[b]);
                assert(new_order[i] == order[a] && new_order[j] == order[b]);
                assert(!before(to[b], to[a]));
            } else if j == at {
                assert(new_to[i] == to[i]);
                assert(new_order[i] == order[i]);
                assert(0 <= order[i] < n);
            } else {
                // i == at, and x stands before to[at].
                assert(new_to[j] == to[b]);
                assert(before(x, to[at]));
                assert(!before(to[b], to[at]) || b == at);
                if !before(x, to[b]) {
                    if b > at {
                        assert(!before(to[b], to[at]));
                        assert(!before(x, to[at]));
                    }
                }
                if before(to[b], x) {
                    assert(!(before(to[b], x) && before(x, to[b])));
                }
            }
        }
        (new_to, new_order)
    }
}

/// What `arranged` names is there: the list is sorted by the order.
pub proof fn arranged_is_sorted<T>(list: Seq<T>, before: spec_fn(T, T) -> bool)
    requires
        is_weak_order(before),
    ensures
        stably_sorted_by(list, arranged(list, before), before),
{
    let (to, order) = lemma_can_be_sorted(list, before);
    assert(stably_sorted_by(list, to, before));
}

} // verus!
