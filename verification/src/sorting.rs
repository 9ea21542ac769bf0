//! Stable sorting by an integer rank.
use vstd::prelude::*;

verus! {

/// What can be ranked by an integer.
pub trait Ranked: Sized {
    /// The rank.
    spec fn rank(&self) -> int;
}

/// What can tell its rank at run time.
pub trait SortKey: Ranked {
    /// The rank.
    fn sort_key(&self) -> (key: i64)
        ensures
            key == self.rank(),
    ;
}

/// `items` with `item` put after the last element whose rank is not higher.
pub open spec fn insert_ranked<T: Ranked>(items: Seq<T>, item: T) -> Seq<T>
    decreases items.len(),
{
    if items.len() == 0 || items.last().rank() <= item.rank() {
        items.push(item)
    } else {
        insert_ranked(items.drop_last(), item).push(items.last())
    }
}

/// The elements in ascending order of rank, equal ranks in the order in which they stood.
pub open spec fn stable_sorted<T: Ranked>(items: Seq<T>) -> Seq<T>
    decreases items.len(),
{
    if items.len() == 0 {
        Seq::empty()
    } else {
        insert_ranked(stable_sorted(items.drop_last()), items.last())
    }
}

/// Whether ranks never descend.
pub open spec fn ascending<T: Ranked>(items: Seq<T>) -> bool {
    forall|i: int, j: int|
        0 <= i <= j < items.len() ==> (#[trigger] items[i]).rank() <= (#[trigger] items[j]).rank()
}

proof fn lemma_insert_ranked_at<T: Ranked>(items: Seq<T>, item: T, at: int)
    requires
        0 <= at <= items.len(),
        at > 0 ==> items[at - 1].rank() <= item.rank(),
        forall|k: int| at <= k < items.len() ==> (#[trigger] items[k]).rank() > item.rank(),
    ensures
        insert_ranked(items, item) == items.insert(at, item),
    decreases items.len(),
{
    if at == items.len() {
        assert(items.insert(at, item) =~= items.push(item));
    } else {
        assert(items.last() == items[items.len() - 1]);
        lemma_insert_ranked_at(items.drop_last(), item, at);
        assert(items.insert(at, item) =~= items.drop_last().insert(at, item).push(items.last()));
    }
}

/// Sorts by rank; elements of equal rank keep their order.
pub fn stable_sort<T: SortKey>(items: Vec<T>) -> (sorted: Vec<T>)
    ensures
        sorted@ == stable_sorted(items@),
{
    let ghost all = items@;
    let mut sorted: Vec<T> = Vec::new();
    for item in it: items
        invariant
            it.seq() == all,
            sorted@ == stable_sorted(all.take(it.index())),
    {
        let ghost done = all.take(it.index());
        assert(all.take(it.index() + 1).drop_last() =~= done);
        let mut at: usize = sorted.len();
        let key = item.sort_key();
        while at > 0 && sorted[at - 1].sort_key() > key
            invariant
                at <= sorted@.len(),
                key == item.rank(),
                forall|k: int| at <= k < sorted@.len() ==> (#[trigger] sorted@[k]).rank() > key,
            decreases at,
        {
            at -= 1;
        }
        proof {
            lemma_insert_ranked_at(sorted@, item, at as int);
        }
        sorted.insert(at, item);
    }
    assert(all.take(all.len() as int) =~= all);
    sorted
}

proof fn lemma_insert_ranked_map<T: Ranked, U: Ranked>(items: Seq<T>, item: T, f: spec_fn(T) -> U)
    requires
        forall|t: T| (#[trigger] f(t)).rank() == t.rank(),
    ensures
        insert_ranked(items.map_values(f), f(item)) == insert_ranked(items, item).map_values(f),
    decreases items.len(),
{
    if items.len() > 0 {
        let before = items.drop_last();
        lemma_insert_ranked_map(before, item, f);
        assert(items.map_values(f).drop_last() =~= before.map_values(f));
        assert(items.map_values(f).last() == f(items.last()));
    }
    assert(insert_ranked(items.map_values(f), f(item)) =~= insert_ranked(items, item).map_values(
        f,
    ));
}

/// Sorting commutes with any change of the elements that keeps their ranks.
pub proof fn lemma_stable_sorted_map<T: Ranked, U: Ranked>(items: Seq<T>, f: spec_fn(T) -> U)
    requires
        forall|t: T| (#[trigger] f(t)).rank() == t.rank(),
    ensures
        stable_sorted(items.map_values(f)) == stable_sorted(items).map_values(f),
    decreases items.len(),
{
    if items.len() > 0 {
        let before = items.drop_last();
        lemma_stable_sorted_map(before, f);
        assert(items.map_values(f).drop_last() =~= before.map_values(f));
        lemma_insert_ranked_map(stable_sorted(before), items.last(), f);
    }
    assert(stable_sorted(items.map_values(f)) =~= stable_sorted(items).map_values(f));
}

/// An element together with the place where it stood.
pub struct Placed<T> {
    pub at: int,
    pub item: T,
}

impl<T: Ranked> Ranked for Placed<T> {
    open spec fn rank(&self) -> int {
        self.item.rank()
    }
}

/// The elements with their places.
pub open spec fn placed<T: Ranked>(items: Seq<T>) -> Seq<Placed<T>> {
    Seq::new(items.len(), |i: int| Placed { at: i, item: items[i] })
}

/// Whether the first stands before the second in a stable order: by rank, and by place where the
/// ranks are equal.
pub open spec fn precedes<T: Ranked>(a: Placed<T>, b: Placed<T>) -> bool {
    a.rank() < b.rank() || (a.rank() == b.rank() && a.at < b.at)
}

proof fn lemma_insert_placed<T: Ranked>(items: Seq<Placed<T>>, item: Placed<T>)
    requires
        forall|i: int, j: int|
            0 <= i < j < items.len() ==> precedes(#[trigger] items[i], #[trigger] items[j]),
        forall|i: int| 0 <= i < items.len() ==> (#[trigger] items[i]).at < item.at,
    ensures
        insert_ranked(items, item).len() == items.len() + 1,
        insert_ranked(items, item).to_multiset() == items.to_multiset().insert(item),
        forall|i: int, j: int|
            0 <= i < j < items.len() + 1 ==> precedes(
                #[trigger] insert_ranked(items, item)[i],
                #[trigger] insert_ranked(items, item)[j],
            ),
    decreases items.len(),
{
    broadcast use vstd::seq_lib::group_to_multiset_ensures;

    if items.len() > 0 && items.last().rank() > item.rank() {
        let before = items.drop_last();
        lemma_insert_placed(before, item);
        let inserted = insert_ranked(before, item);
        assert(items =~= before.push(items.last()));
        assert(items.to_multiset() =~= before.to_multiset().insert(items.last()));
        assert(inserted.push(items.last()).to_multiset() =~= items.to_multiset().insert(item));
        assert forall|i: int| 0 <= i < inserted.len() implies precedes(
            #[trigger] inserted[i],
            items.last(),
        ) by {
            assert(inserted.to_multiset().contains(inserted[i]));
            if inserted[i] != item {
                assert(before.to_multiset().contains(inserted[i]));
                let k = choose|k: int| 0 <= k < before.len() && before[k] == inserted[i];
                assert(items[k] == before[k]);
            }
        }
    } else {
        assert(insert_ranked(items, item) =~= items.push(item));
        assert forall|i: int| 0 <= i < items.len() implies precedes(#[trigger] items[i], item) by {
            if i < items.len() - 1 {
                assert(precedes(items[i], items[items.len() - 1]));
            }
        }
    }
}

/// Sorting keeps every element with its place and puts them in the stable order: by rank, and by
/// the places where they stood among equal ranks.
pub proof fn law_sort_is_stable<T: Ranked>(items: Seq<T>)
    ensures
        stable_sorted(placed(items)).len() == items.len(),
        stable_sorted(placed(items)).to_multiset() == placed(items).to_multiset(),
        forall|i: int, j: int|
            0 <= i < j < items.len() ==> precedes(
                #[trigger] stable_sorted(placed(items))[i],
                #[trigger] stable_sorted(placed(items))[j],
            ),
        forall|i: int|
            0 <= i < items.len() ==> (#[trigger] stable_sorted(placed(items))[i]).item
                == stable_sorted(items)[i],
        stable_sorted(items).len() == items.len(),
    decreases items.len(),
{
    broadcast use vstd::seq_lib::group_to_multiset_ensures;

    let all = placed(items);
    let f = |p: Placed<T>| p.item;
    lemma_stable_sorted_map(all, f);
    assert(all.map_values(f) =~= items);
    if items.len() > 0 {
        let before = items.drop_last();
        law_sort_is_stable(before);
        assert(all.drop_last() =~= placed(before));
        assert(all =~= placed(before).push(all.last()));
        let sorted = stable_sorted(placed(before));
        assert forall|i: int| 0 <= i < sorted.len() implies (#[trigger] sorted[i]).at
            < all.last().at by {
            assert(sorted.to_multiset().contains(sorted[i]));
            let k = choose|k: int| 0 <= k < placed(before).len() && placed(before)[k] == sorted[i];
        }
        lemma_insert_placed(sorted, all.last());
    }
}

/// Sorting gives the same elements in ascending order of rank.
pub proof fn law_sort_is_sorted_permutation<T: Ranked>(items: Seq<T>)
    ensures
        ascending(stable_sorted(items)),
        stable_sorted(items).to_multiset() == items.to_multiset(),
    decreases items.len(),
{
    broadcast use vstd::seq_lib::group_to_multiset_ensures;

    law_sort_is_stable(items);
    let order = stable_sorted(placed(items));
    assert forall|i: int, j: int| 0 <= i <= j < items.len() implies (#[trigger] stable_sorted(
        items,
    )[i]).rank() <= (#[trigger] stable_sorted(items)[j]).rank() by {
        assert(order[i].item == stable_sorted(items)[i]);
        assert(order[j].item == stable_sorted(items)[j]);
        if i < j {
            assert(precedes(order[i], order[j]));
        }
    }
    if items.len() > 0 {
        let before = items.drop_last();
        law_sort_is_sorted_permutation(before);
        lemma_insert_ranked_multiset(stable_sorted(before), items.last());
        assert(items =~= before.push(items.last()));
    }
}

proof fn lemma_insert_ranked_multiset<T: Ranked>(items: Seq<T>, item: T)
    ensures
        insert_ranked(items, item).to_multiset() == items.to_multiset().insert(item),
    decreases items.len(),
{
    broadcast use vstd::seq_lib::group_to_multiset_ensures;

    if items.len() > 0 && items.last().rank() > item.rank() {
        let before = items.drop_last();
        lemma_insert_ranked_multiset(before, item);
        assert(items =~= before.push(items.last()));
        assert(items.to_multiset() =~= before.to_multiset().insert(items.last()));
        assert(insert_ranked(before, item).push(items.last()).to_multiset()
            =~= items.to_multiset().insert(item));
    }
}

/// Sorting what is in order changes nothing.
pub proof fn law_sorted_stays<T: Ranked>(items: Seq<T>)
    requires
        ascending(items),
    ensures
        stable_sorted(items) == items,
    decreases items.len(),
{
    if items.len() > 0 {
        let before = items.drop_last();
        assert forall|i: int, j: int| 0 <= i <= j < before.len() implies (#[trigger] before[i]).rank()
            <= (#[trigger] before[j]).rank() by {
            assert(before[i] == items[i] && before[j] == items[j]);
        }
        law_sorted_stays(before);
        if before.len() > 0 {
            assert(before.last() == items[items.len() - 2]);
            assert(items.last() == items[items.len() - 1]);
        }
        assert(items =~= before.push(items.last()));
    }
}

} // verus!
