//! Stable ranking of items by a strict weak order.
//!
//! `ranking` says what the ranked sequence is; the proof functions below say
//! why that is the right sequence: it is in order, it holds the same items, and
//! items that tie keep the order in which they came.

use crate::sequences::lemma_filter_push;
use vstd::prelude::*;

verus! {

broadcast use vstd::seq_lib::group_to_multiset_ensures;

/// Items that a ranking puts in order.
pub trait Ranked: Copy {
    /// Whether `self` must come before `other`.
    spec fn precedes(self, other: Self) -> bool;

    /// `precedes` is a strict weak order: no two items precede each other, and
    /// where `a` precedes `b`, any third item comes after `a` or before `b`.
    proof fn lemma_strict_weak_order(a: Self, b: Self, c: Self)
        ensures
            !(a.precedes(b) && b.precedes(a)),
            a.precedes(b) ==> a.precedes(c) || c.precedes(b),
    ;

    /// Whether `self` must come before `other`.
    fn comes_before(&self, other: &Self) -> (before: bool)
        ensures
            before == self.precedes(*other),
    ;
}

/// Two items tie when neither precedes the other.
pub open spec fn tied<T: Ranked>(a: T, b: T) -> bool {
    !a.precedes(b) && !b.precedes(a)
}

/// The items that tie with `a`.
pub open spec fn tied_with<T: Ranked>(a: T) -> spec_fn(T) -> bool {
    |b: T| tied(a, b)
}

/// No item of the sequence precedes an earlier one.
pub open spec fn in_order<T: Ranked>(items: Seq<T>) -> bool {
    forall|i: int, j: int| 0 <= i < j < items.len() ==> !(#[trigger] items[j]).precedes(#[trigger] items[i])
}

/// A ranked sequence with one more item: the item goes behind every item that
/// it does not precede.
pub open spec fn place<T: Ranked>(ranked: Seq<T>, item: T) -> Seq<T>
    decreases ranked.len(),
{
    if ranked.len() > 0 && item.precedes(ranked.last()) {
        place(ranked.drop_last(), item).push(ranked.last())
    } else {
        ranked.push(item)
    }
}

/// The items in ranked order; items that tie stay in the order they came in.
pub open spec fn ranking<T: Ranked>(items: Seq<T>) -> Seq<T>
    decreases items.len(),
{
    if items.len() == 0 {
        items
    } else {
        place(ranking(items.drop_last()), items.last())
    }
}

/// Placing an item adds that item and nothing else.
pub proof fn lemma_place_permutes<T: Ranked>(ranked: Seq<T>, item: T)
    ensures
        place(ranked, item).len() == ranked.len() + 1,
        place(ranked, item).to_multiset() == ranked.to_multiset().insert(item),
    decreases ranked.len(),
{
    if ranked.len() > 0 && item.precedes(ranked.last()) {
        let head = ranked.drop_last();
        lemma_place_permutes(head, item);
        assert(ranked == head.push(ranked.last()));
        assert(head.to_multiset().insert(item).insert(ranked.last())
            =~= head.to_multiset().insert(ranked.last()).insert(item));
    }
}

/// A ranking holds the items it was made from, each as often as it came.
pub proof fn lemma_ranking_permutes<T: Ranked>(items: Seq<T>)
    ensures
        ranking(items).len() == items.len(),
        ranking(items).to_multiset() == items.to_multiset(),
    decreases items.len(),
{
    if items.len() > 0 {
        lemma_ranking_permutes(items.drop_last());
        lemma_place_permutes(ranking(items.drop_last()), items.last());
        assert(items == items.drop_last().push(items.last()));
    }
}

/// Every item of `place(ranked, item)` is `item` or an item of `ranked`.
proof fn lemma_place_members<T: Ranked>(ranked: Seq<T>, item: T, k: int)
    requires
        0 <= k < place(ranked, item).len(),
    ensures
        place(ranked, item)[k] == item || ranked.contains(place(ranked, item)[k]),
{
    let placed = place(ranked, item);
    let found = placed[k];
    lemma_place_permutes(ranked, item);
    assert(placed.contains(found));
    assert(placed.to_multiset().count(found) > 0);
    if found != item {
        assert(ranked.to_multiset().count(found) > 0);
    }
}

/// Placing an item into a sequence that is in order leaves it in order.
pub proof fn lemma_place_in_order<T: Ranked>(ranked: Seq<T>, item: T)
    requires
        in_order(ranked),
    ensures
        in_order(place(ranked, item)),
    decreases ranked.len(),
{
    let placed = place(ranked, item);
    if ranked.len() > 0 && item.precedes(ranked.last()) {
        let head = ranked.drop_last();
        let last = ranked.last();
        assert(in_order(head)) by {
            assert forall|i: int, j: int| 0 <= i < j < head.len() implies !(#[trigger] head[j]).precedes(
                #[trigger] head[i],
            ) by {
                assert(head[j] == ranked[j] && head[i] == ranked[i]);
            }
        }
        lemma_place_in_order(head, item);
        let inner = place(head, item);
        assert forall|i: int, j: int| 0 <= i < j < placed.len() implies !(#[trigger] placed[j]).precedes(
            #[trigger] placed[i],
        ) by {
            if j < inner.len() {
                assert(placed[j] == inner[j] && placed[i] == inner[i]);
            } else {
                assert(placed[j] == last);
                assert(placed[i] == inner[i]);
                lemma_place_members(head, item, i);
                if inner[i] == item {
                    T::lemma_strict_weak_order(item, last, item);
                } else {
                    let at = choose|at: int| 0 <= at < head.len() && head[at] == inner[i];
                    assert(ranked[at] == inner[i]);
                    assert(ranked[ranked.len() - 1] == last);
                }
            }
        }
    } else {
        assert forall|i: int, j: int| 0 <= i < j < placed.len() implies !(#[trigger] placed[j]).precedes(
            #[trigger] placed[i],
        ) by {
            if j < ranked.len() {
                assert(placed[j] == ranked[j] && placed[i] == ranked[i]);
            } else {
                assert(placed[j] == item && placed[i] == ranked[i]);
                let last = ranked[ranked.len() - 1];
                if item.precedes(ranked[i]) {
                    T::lemma_strict_weak_order(item, ranked[i], last);
                    assert(i < ranked.len() - 1);
                }
            }
        }
    }
}

/// A ranking is in order: no item precedes an earlier one.
pub proof fn lemma_ranking_in_order<T: Ranked>(items: Seq<T>)
    ensures
        in_order(ranking(items)),
    decreases items.len(),
{
    if items.len() > 0 {
        lemma_ranking_in_order(items.drop_last());
        lemma_place_in_order(ranking(items.drop_last()), items.last());
    }
}

/// Among the items that tie with `a`, a placed item goes last.
pub proof fn lemma_place_keeps_ties<T: Ranked>(ranked: Seq<T>, item: T, a: T)
    ensures
        place(ranked, item).filter(tied_with(a)) == if tied(a, item) {
            ranked.filter(tied_with(a)).push(item)
        } else {
            ranked.filter(tied_with(a))
        },
    decreases ranked.len(),
{
    let ties = tied_with(a);
    if ranked.len() > 0 && item.precedes(ranked.last()) {
        let head = ranked.drop_last();
        let last = ranked.last();
        lemma_place_keeps_ties(head, item, a);
        lemma_filter_push(place(head, item), last, ties);
        lemma_filter_push(head, last, ties);
        assert(ranked == head.push(last));
        if tied(a, item) {
            T::lemma_strict_weak_order(item, last, a);
            assert(!ties(last));
        }
    } else {
        lemma_filter_push(ranked, item, ties);
    }
}

/// A ranking is stable: the items that tie with any one item stand in the
/// order in which they came.
pub proof fn lemma_ranking_stable<T: Ranked>(items: Seq<T>, a: T)
    ensures
        ranking(items).filter(tied_with(a)) == items.filter(tied_with(a)),
    decreases items.len(),
{
    if items.len() > 0 {
        lemma_ranking_stable(items.drop_last(), a);
        lemma_place_keeps_ties(ranking(items.drop_last()), items.last(), a);
        lemma_filter_push(items.drop_last(), items.last(), tied_with(a));
        assert(items == items.drop_last().push(items.last()));
    }
}

/// Two sequences that hold the same items, are both in order and agree on the
/// order of the items that tie are the same sequence.
proof fn lemma_same_order<T: Ranked>(x: Seq<T>, y: Seq<T>)
    requires
        x.to_multiset() == y.to_multiset(),
        in_order(x),
        in_order(y),
        forall|a: T| #[trigger] x.filter(tied_with(a)) == y.filter(tied_with(a)),
    ensures
        x == y,
    decreases x.len(),
{
    assert(x.len() == y.len()) by {
        assert(x.len() == x.to_multiset().len());
        assert(y.len() == y.to_multiset().len());
    }
    if x.len() == 0 {
        assert(x =~= y);
    } else {
        let z = x.last();
        let w = y.last();
        let xd = x.drop_last();
        let yd = y.drop_last();
        assert(x == xd.push(z));
        assert(y == yd.push(w));
        T::lemma_strict_weak_order(z, z, z);
        T::lemma_strict_weak_order(w, w, w);
        assert(!z.precedes(w)) by {
            assert(y.contains(w));
            assert(y.to_multiset().count(w) > 0);
            assert(x.contains(w));
            let i = choose|i: int| 0 <= i < x.len() && x[i] == w;
            if i < x.len() - 1 {
                assert(!x[x.len() - 1].precedes(x[i]));
            }
        }
        assert(!w.precedes(z)) by {
            assert(x.contains(z));
            assert(x.to_multiset().count(z) > 0);
            assert(y.contains(z));
            let i = choose|i: int| 0 <= i < y.len() && y[i] == z;
            if i < y.len() - 1 {
                assert(!y[y.len() - 1].precedes(y[i]));
            }
        }
        let ties = tied_with(z);
        assert(ties(z) && ties(w));
        lemma_filter_push(xd, z, ties);
        lemma_filter_push(yd, w, ties);
        assert(x.filter(ties) == y.filter(ties));
        assert(z == w) by {
            assert(xd.filter(ties).push(z).last() == z);
            assert(yd.filter(ties).push(w).last() == w);
        }
        assert(xd.to_multiset() =~= yd.to_multiset()) by {
            assert(xd.to_multiset().insert(z).remove(z) =~= xd.to_multiset());
            assert(yd.to_multiset().insert(z).remove(z) =~= yd.to_multiset());
        }
        assert(in_order(xd)) by {
            assert forall|i: int, j: int| 0 <= i < j < xd.len() implies !(#[trigger] xd[j]).precedes(
                #[trigger] xd[i],
            ) by {
                assert(xd[j] == x[j] && xd[i] == x[i]);
            }
        }
        assert(in_order(yd)) by {
            assert forall|i: int, j: int| 0 <= i < j < yd.len() implies !(#[trigger] yd[j]).precedes(
                #[trigger] yd[i],
            ) by {
                assert(yd[j] == y[j] && yd[i] == y[i]);
            }
        }
        assert forall|a: T| #[trigger] xd.filter(tied_with(a)) == yd.filter(tied_with(a)) by {
            let class = tied_with(a);
            lemma_filter_push(xd, z, class);
            lemma_filter_push(yd, z, class);
            assert(x.filter(class) == y.filter(class));
            if class(z) {
                assert(xd.filter(class).push(z).drop_last() == xd.filter(class));
                assert(yd.filter(class).push(z).drop_last() == yd.filter(class));
            }
        }
        lemma_same_order(xd, yd);
    }
}

/// The ranking is the only sequence that holds the items, is in order and
/// keeps the items that tie in the order in which they came.
pub proof fn lemma_ranking_is_unique<T: Ranked>(items: Seq<T>, other: Seq<T>)
    requires
        other.to_multiset() == items.to_multiset(),
        in_order(other),
        forall|a: T| #[trigger] other.filter(tied_with(a)) == items.filter(tied_with(a)),
    ensures
        other == ranking(items),
{
    lemma_ranking_permutes(items);
    lemma_ranking_in_order(items);
    assert forall|a: T| #[trigger] other.filter(tied_with(a)) == ranking(items).filter(tied_with(a)) by {
        lemma_ranking_stable(items, a);
    }
    lemma_same_order(other, ranking(items));
}

/// Where a sequence in order splits into the items that `item` does not
/// precede and those that it does, `item` is placed at the split.
pub proof fn lemma_place_at<T: Ranked>(ranked: Seq<T>, item: T, at: int)
    requires
        0 <= at <= ranked.len(),
        forall|k: int| 0 <= k < at ==> !item.precedes(#[trigger] ranked[k]),
        forall|k: int| at <= k < ranked.len() ==> item.precedes(#[trigger] ranked[k]),
    ensures
        place(ranked, item) == ranked.insert(at, item),
    decreases ranked.len(),
{
    if ranked.len() > 0 && item.precedes(ranked.last()) {
        let head = ranked.drop_last();
        assert(at < ranked.len()) by {
            if at == ranked.len() {
                assert(!item.precedes(ranked[ranked.len() - 1]));
            }
        }
        assert forall|k: int| 0 <= k < at implies !item.precedes(#[trigger] head[k]) by {
            assert(head[k] == ranked[k]);
        }
        assert forall|k: int| at <= k < head.len() implies item.precedes(#[trigger] head[k]) by {
            assert(head[k] == ranked[k]);
        }
        lemma_place_at(head, item, at);
        assert(head.insert(at, item).push(ranked.last()) =~= ranked.insert(at, item));
    } else {
        if ranked.len() > 0 {
            assert(at == ranked.len()) by {
                if at < ranked.len() {
                    assert(item.precedes(ranked[ranked.len() - 1]));
                }
            }
        }
        assert(ranked.push(item) =~= ranked.insert(at, item));
    }
}

/// The items of `items` in ranked order.
pub fn rank_items<T: Ranked>(items: &Vec<T>) -> (ranked: Vec<T>)
    ensures
        ranked@ == ranking(items@),
{
    let mut ranked: Vec<T> = Vec::new();
    let mut next: usize = 0;
    while next < items.len()
        invariant
            next <= items.len(),
            ranked@ == ranking(items@.take(next as int)),
        decreases items.len() - next,
    {
        let item = items[next];
        proof {
            lemma_ranking_in_order(items@.take(next as int));
            lemma_ranking_permutes(items@.take(next as int));
        }
        let mut low: usize = 0;
        let mut high: usize = ranked.len();
        while low < high
            invariant
                low <= high <= ranked.len(),
                in_order(ranked@),
                forall|k: int| 0 <= k < low ==> !item.precedes(#[trigger] ranked@[k]),
                forall|k: int| high <= k < ranked.len() ==> item.precedes(#[trigger] ranked@[k]),
            decreases high - low,
        {
            let middle = low + (high - low) / 2;
            if item.comes_before(&ranked[middle]) {
                proof {
                    assert forall|k: int| middle <= k < ranked.len() implies item.precedes(
                        #[trigger] ranked@[k],
                    ) by {
                        T::lemma_strict_weak_order(item, ranked@[middle as int], ranked@[k]);
                    }
                }
                high = middle;
            } else {
                proof {
                    assert forall|k: int| 0 <= k < middle + 1 implies !item.precedes(
                        #[trigger] ranked@[k],
                    ) by {
                        T::lemma_strict_weak_order(item, ranked@[k], ranked@[middle as int]);
                    }
                }
                low = middle + 1;
            }
        }
        proof {
            lemma_place_at(ranked@, item, low as int);
            assert(items@.take(next + 1).drop_last() == items@.take(next as int));
        }
        ranked.insert(low, item);
        next += 1;
    }
    proof {
        assert(items@.take(items.len() as int) == items@);
    }
    ranked
}

/// The number of items that `first_items` keeps.
pub open spec fn kept(len: nat, limit: usize) -> int {
    if limit <= len {
        limit as int
    } else {
        len as int
    }
}

/// The first `limit` items, or all of them where there are fewer.
pub fn first_items<T: Copy>(items: &Vec<T>, limit: usize) -> (head: Vec<T>)
    ensures
        head@ == items@.take(kept(items@.len(), limit)),
{
    let count = if limit <= items.len() {
        limit
    } else {
        items.len()
    };
    let mut head: Vec<T> = Vec::new();
    let mut next: usize = 0;
    while next < count
        invariant
            next <= count <= items.len(),
            head@ == items@.take(next as int),
        decreases count - next,
    {
        head.push(items[next]);
        proof {
            assert(items@.take(next + 1) == items@.take(next as int).push(items@[next as int]));
        }
        next += 1;
    }
    head
}

} // verus!
