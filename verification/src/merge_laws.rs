//! What holds of every merge of channels.
use crate::epg_merge::{
    all_channels, by_preference, deduplicated, first_by_id, fresh, has_id, lemma_first_by_id,
    lemma_fresh_concat, lemma_programmes_of_absent, lemma_slots_push, merged_channels,
    programmes_of, slot, slots, with_all_programmes, ProgrammeMergeKey,
};
use crate::model::{SpecChannel, SpecProgramme};
use crate::sorting::{
    ascending, law_sort_is_sorted_permutation, law_sort_is_stable, law_sorted_stays, placed,
    precedes, stable_sorted, Ranked,
};
use vstd::prelude::*;

verus! {

/// Whether the place `k, m` names a channel of the sources: channel `m` of source `k`.
pub open spec fn is_place(sources: Seq<(i16, Seq<SpecChannel>)>, k: int, m: int) -> bool {
    0 <= k < sources.len() && 0 <= m < sources[k].1.len()
}

/// Whether the channel at `k, m` is preferred to the one at `l, n`: its source has the lower
/// number, or the same number and an earlier place, or the two share a source and it comes first.
pub open spec fn preferred(
    sources: Seq<(i16, Seq<SpecChannel>)>,
    k: int,
    m: int,
    l: int,
    n: int,
) -> bool {
    ||| sources[k].0 < sources[l].0
    ||| sources[k].0 == sources[l].0 && k < l
    ||| k == l && m < n
}

/// Where channel `m` of source `p` stands among the channels of all sources.
spec fn offset(sources: Seq<(i16, Seq<SpecChannel>)>, p: int) -> int {
    all_channels(sources.take(p)).len() as int
}

proof fn lemma_all_channels_at(sources: Seq<(i16, Seq<SpecChannel>)>, p: int, m: int)
    requires
        0 <= p < sources.len(),
        0 <= m < sources[p].1.len(),
    ensures
        offset(sources, p) + m < all_channels(sources).len(),
        all_channels(sources)[offset(sources, p) + m] == sources[p].1[m],
    decreases sources.len(),
{
    let before = sources.drop_last();
    if p < before.len() {
        lemma_all_channels_at(before, p, m);
        assert(before.take(p) =~= sources.take(p));
    } else {
        assert(sources.take(p) =~= before);
    }
}

proof fn lemma_offset_ascends(sources: Seq<(i16, Seq<SpecChannel>)>, p: int, r: int)
    requires
        0 <= p < r <= sources.len(),
    ensures
        offset(sources, p) + sources[p].1.len() <= offset(sources, r),
    decreases r - p,
{
    assert(sources.take(r).drop_last() =~= sources.take(r - 1));
    assert(sources.take(r).last() == sources[r - 1]);
    if p < r - 1 {
        lemma_offset_ascends(sources, p, r - 1);
    }
}

proof fn lemma_all_channels_place(sources: Seq<(i16, Seq<SpecChannel>)>, q: int) -> (place: (
    int,
    int,
))
    requires
        0 <= q < all_channels(sources).len(),
    ensures
        is_place(sources, place.0, place.1),
        q == offset(sources, place.0) + place.1,
    decreases sources.len(),
{
    let before = sources.drop_last();
    if q < all_channels(before).len() {
        let place = lemma_all_channels_place(before, q);
        assert(before.take(place.0) =~= sources.take(place.0));
        place
    } else {
        assert(sources.take(sources.len() - 1) =~= before);
        (sources.len() - 1, q - all_channels(before).len())
    }
}

/// Every channel of the sources stands among the channels by preference.
proof fn lemma_preference_holds(sources: Seq<(i16, Seq<SpecChannel>)>, k: int, m: int) -> (q: int)
    requires
        is_place(sources, k, m),
    ensures
        0 <= q < by_preference(sources).len(),
        by_preference(sources)[q] == sources[k].1[m],
        forall|l: int, n: int|
            #![trigger is_place(sources, l, n)]
            is_place(sources, l, n) && preferred(sources, l, n, k, m) ==> exists|r: int|
                0 <= r < q && #[trigger] by_preference(sources)[r] == sources[l].1[n],
{
    broadcast use vstd::seq_lib::group_to_multiset_ensures;

    law_sort_is_stable(sources);
    let sorted = stable_sorted(sources);
    let order = stable_sorted(placed(sources));
    let p = lemma_sorted_place(sources, k);
    lemma_all_channels_at(sorted, p, m);
    let q = offset(sorted, p) + m;
    assert forall|l: int, n: int|
        #![trigger is_place(sources, l, n)]
        is_place(sources, l, n) && preferred(sources, l, n, k, m) implies exists|r: int|
        0 <= r < q && #[trigger] by_preference(sources)[r] == sources[l].1[n] by {
        let o = lemma_sorted_place(sources, l);
        lemma_all_channels_at(sorted, o, n);
        if o > p {
            assert(precedes(order[p], order[o]));
            assert(false);
        }
        if o < p {
            lemma_offset_ascends(sorted, o, p);
        }
        let r = offset(sorted, o) + n;
        assert(by_preference(sources)[r] == sources[l].1[n]);
    }
    q
}

proof fn lemma_sorted_place(sources: Seq<(i16, Seq<SpecChannel>)>, k: int) -> (p: int)
    requires
        0 <= k < sources.len(),
    ensures
        0 <= p < sources.len(),
        stable_sorted(sources).len() == sources.len(),
        stable_sorted(sources)[p] == sources[k],
        stable_sorted(placed(sources))[p].at == k,
        stable_sorted(placed(sources))[p].item == sources[k],
{
    broadcast use vstd::seq_lib::group_to_multiset_ensures;

    law_sort_is_stable(sources);
    let order = stable_sorted(placed(sources));
    let all = placed(sources);
    assert(all.contains(all[k]));
    assert(order.to_multiset().contains(all[k]));
    assert(order.contains(all[k]));
    choose|p: int| 0 <= p < order.len() && order[p] == all[k]
}

/// Every channel by preference stands in a source, and what stands before it is not less
/// preferred.
proof fn lemma_preference_place(sources: Seq<(i16, Seq<SpecChannel>)>, q: int) -> (place: (
    int,
    int,
))
    requires
        0 <= q < by_preference(sources).len(),
    ensures
        is_place(sources, place.0, place.1),
        by_preference(sources)[q] == sources[place.0].1[place.1],
        forall|l: int, n: int|
            #![trigger is_place(sources, l, n)]
            is_place(sources, l, n) && preferred(sources, l, n, place.0, place.1) ==> exists|r: int|
                0 <= r < q && #[trigger] by_preference(sources)[r] == sources[l].1[n],
{
    broadcast use vstd::seq_lib::group_to_multiset_ensures;

    law_sort_is_stable(sources);
    let sorted = stable_sorted(sources);
    let order = stable_sorted(placed(sources));
    let (p, m) = lemma_all_channels_place(sorted, q);
    let all = placed(sources);
    assert(order.contains(order[p]));
    assert(all.to_multiset().contains(order[p]));
    assert(all.contains(order[p]));
    let k = choose|k: int| 0 <= k < all.len() && all[k] == order[p];
    assert(order[p].item == sources[k]);
    assert(sorted[p] == sources[k]);
    lemma_all_channels_at(sorted, p, m);
    assert forall|l: int, n: int|
        #![trigger is_place(sources, l, n)]
        is_place(sources, l, n) && preferred(sources, l, n, k, m) implies exists|r: int|
        0 <= r < q && #[trigger] by_preference(sources)[r] == sources[l].1[n] by {
        let o = lemma_sorted_place(sources, l);
        lemma_all_channels_at(sorted, o, n);
        if o > p {
            assert(precedes(order[p], order[o]));
            assert(false);
        }
        if o < p {
            lemma_offset_ascends(sorted, o, p);
        }
        let r = offset(sorted, o) + n;
        assert(by_preference(sources)[r] == sources[l].1[n]);
    }
    (k, m)
}

/// A channel that is first by id stands among the channels with none of its id before it.
proof fn lemma_first_by_id_place(channels: Seq<SpecChannel>, i: int) -> (q: int)
    requires
        0 <= i < first_by_id(channels).len(),
    ensures
        0 <= q < channels.len(),
        first_by_id(channels)[i] == channels[q],
        forall|r: int| 0 <= r < q ==> (#[trigger] channels[r]).id != channels[q].id,
    decreases channels.len(),
{
    let before = channels.drop_last();
    if i < first_by_id(before).len() {
        let q = lemma_first_by_id_place(before, i);
        assert forall|r: int| 0 <= r < q implies (#[trigger] channels[r]).id != channels[q].id by {
            assert(before[r] == channels[r]);
        }
        q
    } else {
        let q = channels.len() - 1;
        assert forall|r: int| 0 <= r < q implies (#[trigger] channels[r]).id != channels[q].id by {
            assert(before[r] == channels[r]);
        }
        q
    }
}

/// Among the programmes of an id, the place of every programme, and what stands before it.
proof fn lemma_programmes_of_at(channels: Seq<SpecChannel>, id: Seq<char>, q: int, x: int) -> (y: int)
    requires
        0 <= q < channels.len(),
        channels[q].id == id,
        0 <= x < channels[q].programmes.len(),
    ensures
        0 <= y < programmes_of(channels, id).len(),
        programmes_of(channels, id)[y] == channels[q].programmes[x],
    decreases channels.len(),
{
    let before = channels.drop_last();
    if q < before.len() {
        lemma_programmes_of_at(before, id, q, x)
    } else {
        programmes_of(before, id).len() + x
    }
}

proof fn lemma_programmes_of_place(channels: Seq<SpecChannel>, id: Seq<char>, y: int) -> (place: (
    int,
    int,
))
    requires
        0 <= y < programmes_of(channels, id).len(),
    ensures
        0 <= place.0 < channels.len(),
        channels[place.0].id == id,
        0 <= place.1 < channels[place.0].programmes.len(),
        programmes_of(channels, id)[y] == channels[place.0].programmes[place.1],
        forall|r: int, z: int|
            #![trigger channels[r].programmes[z]]
            0 <= r < place.0 && channels[r].id == id && 0 <= z < channels[r].programmes.len()
                ==> stands_before(programmes_of(channels, id), y, channels[r].programmes[z]),
    decreases channels.len(),
{
    let before = channels.drop_last();
    let all = programmes_of(channels, id);
    let early = programmes_of(before, id);
    let place = if y < early.len() {
        lemma_programmes_of_place(before, id, y)
    } else {
        (channels.len() - 1, y - early.len())
    };
    assert forall|r: int, z: int|
        #![trigger channels[r].programmes[z]]
        0 <= r < place.0 && channels[r].id == id && 0 <= z
            < channels[r].programmes.len() implies stands_before(
        all,
        y,
        channels[r].programmes[z],
    ) by {
        assert(before[r].programmes[z] == channels[r].programmes[z]);
        let w = if y < early.len() {
            choose|w: int| 0 <= w < y && #[trigger] early[w] == before[r].programmes[z]
        } else {
            lemma_programmes_of_at(before, id, r, z)
        };
        assert(all[w] == channels[r].programmes[z]);
    }
    place
}

/// Whether a programme stands in a list before the place `y`.
spec fn stands_before(programmes: Seq<SpecProgramme>, y: int, programme: SpecProgramme) -> bool {
    exists|w: int| 0 <= w < y && #[trigger] programmes[w] == programme
}

/// A fresh programme stands among the programmes with none of its slot before it.
proof fn lemma_fresh_place(
    taken: Set<ProgrammeMergeKey>,
    programmes: Seq<SpecProgramme>,
    j: int,
) -> (y: int)
    requires
        0 <= j < fresh(taken, programmes).len(),
    ensures
        0 <= y < programmes.len(),
        fresh(taken, programmes)[j] == programmes[y],
        !taken.contains(slot(programmes[y])),
        forall|w: int| 0 <= w < y ==> slot(#[trigger] programmes[w]) != slot(programmes[y]),
    decreases programmes.len(),
{
    let before = programmes.drop_last();
    if j < fresh(taken, before).len() {
        let y = lemma_fresh_place(taken, before, j);
        assert forall|w: int| 0 <= w < y implies slot(#[trigger] programmes[w]) != slot(
            programmes[y],
        ) by {
            assert(before[w] == programmes[w]);
        }
        y
    } else {
        let y = programmes.len() - 1;
        assert forall|w: int| 0 <= w < y implies slot(#[trigger] programmes[w]) != slot(
            programmes[y],
        ) by {
            assert(before[w] == programmes[w]);
        }
        y
    }
}

/// Fresh programmes take the slots that were not taken, and each of them once.
pub proof fn lemma_fresh_slots(taken: Set<ProgrammeMergeKey>, programmes: Seq<SpecProgramme>)
    ensures
        slots(fresh(taken, programmes)) == slots(programmes).difference(taken),
        forall|i: int, j: int|
            0 <= i < j < fresh(taken, programmes).len() ==> slot(
                #[trigger] fresh(taken, programmes)[i],
            ) != slot(#[trigger] fresh(taken, programmes)[j]),
    decreases programmes.len(),
{
    let kept = fresh(taken, programmes);
    if programmes.len() > 0 {
        let before = programmes.drop_last();
        let last = programmes.last();
        let early = fresh(taken, before);
        lemma_fresh_slots(taken, before);
        assert(programmes =~= before.push(last));
        lemma_slots_push(before, last);
        if kept != early {
            lemma_slots_push(early, last);
            assert forall|i: int| 0 <= i < early.len() implies slot(#[trigger] early[i]) != slot(
                last,
            ) by {
                assert(slots(early).contains(slot(early[i])));
            }
        }
    }
    assert(slots(kept) =~= slots(programmes).difference(taken));
}

/// Dropping repeated slots twice is dropping them once.
pub proof fn law_dedupe_is_idempotent(programmes: Seq<SpecProgramme>)
    ensures
        deduplicated(deduplicated(programmes)) == deduplicated(programmes),
{
    let once = deduplicated(programmes);
    lemma_fresh_slots(Set::empty(), programmes);
    lemma_distinct_is_fresh(once);
}

/// Programmes of which no two share a slot are all kept.
pub proof fn lemma_distinct_is_fresh(programmes: Seq<SpecProgramme>)
    requires
        forall|i: int, j: int|
            0 <= i < j < programmes.len() ==> slot(#[trigger] programmes[i]) != slot(
                #[trigger] programmes[j],
            ),
    ensures
        deduplicated(programmes) == programmes,
    decreases programmes.len(),
{
    if programmes.len() > 0 {
        let before = programmes.drop_last();
        assert forall|i: int, j: int| 0 <= i < j < before.len() implies slot(#[trigger] before[i])
            != slot(#[trigger] before[j]) by {
            assert(before[i] == programmes[i] && before[j] == programmes[j]);
        }
        lemma_distinct_is_fresh(before);
        assert(!slots(before).contains(slot(programmes.last()))) by {
            if slots(before).contains(slot(programmes.last())) {
                let i = choose|i: int|
                    0 <= i < before.len() && slot(#[trigger] before[i]) == slot(programmes.last());
                assert(programmes[i] == before[i]);
                assert(programmes[programmes.len() - 1] == programmes.last());
            }
        }
        assert(programmes =~= before.push(programmes.last()));
    }
    assert(deduplicated(programmes) =~= programmes);
}

/// A merge has exactly the channel ids of its sources, and each of them once.
pub proof fn law_merged_ids(sources: Seq<(i16, Seq<SpecChannel>)>)
    ensures
        forall|i: int, j: int|
            0 <= i < j < merged_channels(sources).len() ==> (#[trigger] merged_channels(
                sources,
            )[i]).id != (#[trigger] merged_channels(sources)[j]).id,
        forall|id: Seq<char>| #[trigger]
            has_id(merged_channels(sources), id) <==> exists|k: int, m: int| #[trigger]
                is_place(sources, k, m) && sources[k].1[m].id == id,
{
    let channels = by_preference(sources);
    let winners = first_by_id(channels);
    let merged = merged_channels(sources);
    lemma_first_by_id(channels);
    assert forall|i: int, j: int| 0 <= i < j < merged.len() implies (#[trigger] merged[i]).id != (
    #[trigger] merged[j]).id by {
        assert(merged[i].id == winners[i].id && merged[j].id == winners[j].id);
    }
    assert forall|id: Seq<char>| #[trigger] has_id(merged, id) implies exists|k: int, m: int|
        #[trigger] is_place(sources, k, m) && sources[k].1[m].id == id by {
        let i = choose|i: int| 0 <= i < merged.len() && (#[trigger] merged[i]).id == id;
        let q = lemma_first_by_id_place(channels, i);
        let (k, m) = lemma_preference_place(sources, q);
        assert(is_place(sources, k, m) && sources[k].1[m].id == id);
    }
    assert forall|id: Seq<char>|
        (exists|k: int, m: int| #[trigger]
            is_place(sources, k, m) && sources[k].1[m].id == id) implies #[trigger] has_id(
        merged,
        id,
    ) by {
        let (k, m) = choose|k: int, m: int| #[trigger]
            is_place(sources, k, m) && sources[k].1[m].id == id;
        let q = lemma_preference_holds(sources, k, m);
        assert(channels[q].id == id);
        assert(has_id(channels, id));
        assert(has_id(winners, id));
        let i = choose|i: int| 0 <= i < winners.len() && (#[trigger] winners[i]).id == id;
        assert(merged[i].id == id);
    }
}

/// Title and icon of a merged channel are those of the most preferred source that has the channel.
pub proof fn law_metadata_of_preferred_source(sources: Seq<(i16, Seq<SpecChannel>)>, i: int)
    requires
        0 <= i < merged_channels(sources).len(),
    ensures
        exists|k: int, m: int| #[trigger]
            is_place(sources, k, m) && {
                let channel = sources[k].1[m];
                &&& channel.id == merged_channels(sources)[i].id
                &&& channel.title == merged_channels(sources)[i].title
                &&& channel.icon == merged_channels(sources)[i].icon
                &&& forall|l: int, n: int| #[trigger]
                    is_place(sources, l, n) && sources[l].1[n].id == channel.id ==> !preferred(
                        sources,
                        l,
                        n,
                        k,
                        m,
                    )
            },
{
    let channels = by_preference(sources);
    let q = lemma_first_by_id_place(channels, i);
    let (k, m) = lemma_preference_place(sources, q);
    assert(is_place(sources, k, m));
    assert forall|l: int, n: int| #[trigger]
        is_place(sources, l, n) && sources[l].1[n].id == sources[k].1[m].id implies !preferred(
        sources,
        l,
        n,
        k,
        m,
    ) by {
        if preferred(sources, l, n, k, m) {
            let r = choose|r: int| 0 <= r < q && #[trigger] channels[r] == sources[l].1[n];
            assert(channels[r].id == channels[q].id);
        }
    }
}

/// The programmes of a merged channel stand in the order of their start, no two share a slot, and
/// together they take every slot that a channel of the same id takes in any source.
pub proof fn law_merged_programmes(sources: Seq<(i16, Seq<SpecChannel>)>, i: int)
    requires
        0 <= i < merged_channels(sources).len(),
    ensures
        ({
            let channel = merged_channels(sources)[i];
            &&& ascending(channel.programmes)
            &&& forall|x: int, y: int|
                0 <= x < y < channel.programmes.len() ==> slot(#[trigger] channel.programmes[x])
                    != slot(#[trigger] channel.programmes[y])
            &&& forall|key: ProgrammeMergeKey| #[trigger]
                slots(channel.programmes).contains(key) <==> exists|k: int, m: int| #[trigger]
                    is_place(sources, k, m) && sources[k].1[m].id == channel.id && slots(
                        sources[k].1[m].programmes,
                    ).contains(key)
        }),
{
    let channels = by_preference(sources);
    let channel = merged_channels(sources)[i];
    let all = programmes_of(channels, channel.id);
    let kept = deduplicated(all);
    lemma_fresh_slots(Set::empty(), all);
    assert(slots(kept) =~= slots(all));
    law_sort_is_sorted_permutation(kept);
    lemma_permuted_slots(kept, channel.programmes);
    assert forall|key: ProgrammeMergeKey| #[trigger] slots(all).contains(key) implies exists|
        k: int,
        m: int,
    | #[trigger]
        is_place(sources, k, m) && sources[k].1[m].id == channel.id && slots(
            sources[k].1[m].programmes,
        ).contains(key) by {
        let y = choose|y: int| 0 <= y < all.len() && slot(#[trigger] all[y]) == key;
        let (q, x) = lemma_programmes_of_place(channels, channel.id, y);
        let (k, m) = lemma_preference_place(sources, q);
        assert(slot(sources[k].1[m].programmes[x]) == key);
        assert(is_place(sources, k, m) && slots(sources[k].1[m].programmes).contains(key));
    }
    assert forall|key: ProgrammeMergeKey|
        (exists|k: int, m: int| #[trigger]
            is_place(sources, k, m) && sources[k].1[m].id == channel.id && slots(
                sources[k].1[m].programmes,
            ).contains(key)) implies #[trigger] slots(all).contains(key) by {
        let (k, m) = choose|k: int, m: int| #[trigger]
            is_place(sources, k, m) && sources[k].1[m].id == channel.id && slots(
                sources[k].1[m].programmes,
            ).contains(key);
        let given = sources[k].1[m].programmes;
        let x = choose|x: int| 0 <= x < given.len() && slot(#[trigger] given[x]) == key;
        let q = lemma_preference_holds(sources, k, m);
        let y = lemma_programmes_of_at(channels, channel.id, q, x);
        assert(slot(all[y]) == key);
    }
}

/// Rearranging programmes keeps their slots.
pub proof fn lemma_permuted_slots(before: Seq<SpecProgramme>, after: Seq<SpecProgramme>)
    requires
        before.to_multiset() == after.to_multiset(),
        forall|x: int, y: int|
            0 <= x < y < before.len() ==> slot(#[trigger] before[x]) != slot(#[trigger] before[y]),
    ensures
        slots(before) == slots(after),
        forall|x: int, y: int|
            0 <= x < y < after.len() ==> slot(#[trigger] after[x]) != slot(#[trigger] after[y]),
{
    broadcast use vstd::seq_lib::group_to_multiset_ensures;

    assert forall|x: int| 0 <= x < before.len() implies after.contains(#[trigger] before[x]) by {
        assert(before.to_multiset().contains(before[x]));
    }
    assert forall|x: int| 0 <= x < after.len() implies before.contains(#[trigger] after[x]) by {
        assert(after.to_multiset().contains(after[x]));
    }
    assert forall|key: ProgrammeMergeKey| slots(before).contains(key) implies slots(after).contains(
        key,
    ) by {
        let x = choose|x: int| 0 <= x < before.len() && slot(#[trigger] before[x]) == key;
        let y = choose|y: int| 0 <= y < after.len() && after[y] == before[x];
        assert(slot(after[y]) == key);
    }
    assert forall|key: ProgrammeMergeKey| slots(after).contains(key) implies slots(before).contains(
        key,
    ) by {
        let x = choose|x: int| 0 <= x < after.len() && slot(#[trigger] after[x]) == key;
        let y = choose|y: int| 0 <= y < before.len() && before[y] == after[x];
        assert(slot(before[y]) == key);
    }
    assert(slots(before) =~= slots(after));
    assert(before.no_duplicates()) by {
        assert forall|x: int, y: int|
            0 <= x < before.len() && 0 <= y < before.len() && x != y implies before[x]
            != before[y] by {
            if x < y {
                assert(slot(before[x]) != slot(before[y]));
            } else {
                assert(slot(before[y]) != slot(before[x]));
            }
        }
    }
    before.lemma_multiset_has_no_duplicates();
    after.lemma_multiset_has_no_duplicates_conv();
    assert forall|x: int, y: int| 0 <= x < y < after.len() implies slot(#[trigger] after[x]) != slot(
        #[trigger] after[y],
    ) by {
        let a = choose|a: int| 0 <= a < before.len() && before[a] == after[x];
        let b = choose|b: int| 0 <= b < before.len() && before[b] == after[y];
        assert(after[x] != after[y]);
        if a < b {
            assert(slot(before[a]) != slot(before[b]));
        } else {
            assert(slot(before[b]) != slot(before[a]));
        }
    }
}

/// Every programme of a merged channel is that of the most preferred source that has the channel
/// and a programme in that slot.
pub proof fn law_programme_of_preferred_source(
    sources: Seq<(i16, Seq<SpecChannel>)>,
    i: int,
    j: int,
)
    requires
        0 <= i < merged_channels(sources).len(),
        0 <= j < merged_channels(sources)[i].programmes.len(),
    ensures
        ({
            let channel = merged_channels(sources)[i];
            let programme = channel.programmes[j];
            exists|k: int, m: int| #[trigger]
                is_place(sources, k, m) && {
                    &&& sources[k].1[m].id == channel.id
                    &&& sources[k].1[m].programmes.contains(programme)
                    &&& forall|l: int, n: int| #[trigger]
                        is_place(sources, l, n) && sources[l].1[n].id == channel.id && slots(
                            sources[l].1[n].programmes,
                        ).contains(slot(programme)) ==> !preferred(sources, l, n, k, m)
                }
        }),
{
    broadcast use vstd::seq_lib::group_to_multiset_ensures;

    let channels = by_preference(sources);
    let channel = merged_channels(sources)[i];
    let programme = channel.programmes[j];
    let all = programmes_of(channels, channel.id);
    let kept = deduplicated(all);
    law_sort_is_sorted_permutation(kept);
    assert(channel.programmes.to_multiset().contains(programme));
    assert(kept.contains(programme));
    let z = choose|z: int| 0 <= z < kept.len() && kept[z] == programme;
    let y = lemma_fresh_place(Set::empty(), all, z);
    let (q, x) = lemma_programmes_of_place(channels, channel.id, y);
    let (k, m) = lemma_preference_place(sources, q);
    assert(sources[k].1[m].programmes[x] == programme);
    assert forall|l: int, n: int| #[trigger]
        is_place(sources, l, n) && sources[l].1[n].id == channel.id && slots(
            sources[l].1[n].programmes,
        ).contains(slot(programme)) implies !preferred(sources, l, n, k, m) by {
        if preferred(sources, l, n, k, m) {
            let r = choose|r: int| 0 <= r < q && #[trigger] channels[r] == sources[l].1[n];
            let given = channels[r].programmes;
            let v = choose|v: int| 0 <= v < given.len() && slot(#[trigger] given[v]) == slot(
                programme,
            );
            assert(channels[r].programmes[v] == given[v]);
            let w = choose|w: int| 0 <= w < y && #[trigger] all[w] == channels[r].programmes[v];
            assert(slot(all[w]) != slot(all[y]));
        }
    }
    assert(is_place(sources, k, m));
}

proof fn lemma_distinct_ids(channels: Seq<SpecChannel>)
    requires
        forall|i: int, j: int|
            0 <= i < j < channels.len() ==> (#[trigger] channels[i]).id != (
            #[trigger] channels[j]).id,
    ensures
        first_by_id(channels) == channels,
        forall|i: int|
            0 <= i < channels.len() ==> programmes_of(channels, (#[trigger] channels[i]).id)
                == channels[i].programmes,
    decreases channels.len(),
{
    if channels.len() > 0 {
        let before = channels.drop_last();
        let last = channels.last();
        assert forall|i: int, j: int| 0 <= i < j < before.len() implies (#[trigger] before[i]).id
            != (#[trigger] before[j]).id by {
            assert(before[i] == channels[i] && before[j] == channels[j]);
        }
        lemma_distinct_ids(before);
        assert(!has_id(before, last.id)) by {
            if has_id(before, last.id) {
                let i = choose|i: int|
                    0 <= i < before.len() && (#[trigger] before[i]).id == last.id;
                assert(channels[i].id == channels[channels.len() - 1].id);
            }
        }
        assert(channels =~= before.push(last));
        assert forall|i: int| 0 <= i < channels.len() implies programmes_of(
            channels,
            (#[trigger] channels[i]).id,
        ) == channels[i].programmes by {
            if i < before.len() {
                assert(before[i] == channels[i]);
                assert(channels[i].id != channels[channels.len() - 1].id);
            } else {
                lemma_programmes_of_absent(before, last.id);
                assert(programmes_of(channels, last.id) =~= last.programmes);
            }
        }
    }
}

/// A merge merged again, alone and with any priority, stays as it is.
pub proof fn law_merge_is_idempotent(sources: Seq<(i16, Seq<SpecChannel>)>, priority: i16)
    ensures
        merged_channels(seq![(priority, merged_channels(sources))]) == merged_channels(sources),
{
    let merged = merged_channels(sources);
    let again: Seq<(i16, Seq<SpecChannel>)> = seq![(priority, merged)];
    law_sorted_stays(again);
    assert(again.drop_last() =~= Seq::<(i16, Seq<SpecChannel>)>::empty());
    reveal_with_fuel(all_channels, 2);
    assert(by_preference(again) =~= merged);
    law_merged_ids(sources);
    lemma_distinct_ids(merged);
    assert forall|i: int| 0 <= i < merged.len() implies with_all_programmes(merged[i], merged)
        == merged[i] by {
        law_merged_programmes(sources, i);
        lemma_distinct_is_fresh(merged[i].programmes);
        law_sorted_stays(merged[i].programmes);
    }
    assert(merged_channels(again) =~= merged);
}

/// Two programmes share a slot exactly if they start and stop at the same times.
pub proof fn law_programmes_that_share_a_slot(a: SpecProgramme, b: SpecProgramme)
    ensures
        slot(a) == slot(b) <==> a.start == b.start && a.stop == b.stop,
{
}

/// Programmes are ranked by their start and sources by their priority: what is sorted stands in the
/// order of these.
pub proof fn law_what_counts_for_the_order(
    programmes: Seq<SpecProgramme>,
    sources: Seq<(i16, Seq<SpecChannel>)>,
)
    ensures
        forall|i: int, j: int|
            0 <= i <= j < programmes.len() ==> (#[trigger] stable_sorted(programmes)[i]).start <= (
            #[trigger] stable_sorted(programmes)[j]).start,
        forall|i: int, j: int|
            0 <= i <= j < sources.len() ==> (#[trigger] stable_sorted(sources)[i]).0 <= (
            #[trigger] stable_sorted(sources)[j]).0,
{
    law_sort_is_sorted_permutation(programmes);
    law_sort_is_stable(programmes);
    law_sort_is_sorted_permutation(sources);
    law_sort_is_stable(sources);
    assert forall|i: int, j: int| 0 <= i <= j < programmes.len() implies (#[trigger] stable_sorted(
        programmes,
    )[i]).start <= (#[trigger] stable_sorted(programmes)[j]).start by {
        assert(stable_sorted(programmes)[i].rank() <= stable_sorted(programmes)[j].rank());
    }
    assert forall|i: int, j: int| 0 <= i <= j < sources.len() implies (#[trigger] stable_sorted(
        sources,
    )[i]).0 <= (#[trigger] stable_sorted(sources)[j]).0 by {
        assert(stable_sorted(sources)[i].rank() <= stable_sorted(sources)[j].rank());
    }
}

/// A programme is kept exactly if its slot is not taken, and is then kept as it is. Programmes that
/// follow others are kept behind those, as if the slots of those had been taken.
pub proof fn law_first_programme_in_a_slot_is_kept(
    taken: Set<ProgrammeMergeKey>,
    programme: SpecProgramme,
    left: Seq<SpecProgramme>,
    right: Seq<SpecProgramme>,
)
    ensures
        taken.contains(slot(programme)) ==> fresh(taken, seq![programme]).len() == 0,
        !taken.contains(slot(programme)) ==> fresh(taken, seq![programme]) == seq![programme],
        fresh(taken, left + right) == fresh(taken, left) + fresh(taken.union(slots(left)), right),
        deduplicated(left + right) == deduplicated(left) + fresh(slots(left), right),
{
    let one = seq![programme];
    assert(one.drop_last() =~= Seq::<SpecProgramme>::empty());
    assert(fresh(taken, one.drop_last()) =~= Seq::<SpecProgramme>::empty());
    assert(!slots(one.drop_last()).contains(slot(programme)));
    if !taken.contains(slot(programme)) {
        assert(fresh(taken, one) =~= one);
    }
    lemma_fresh_concat(taken, left, right);
    lemma_fresh_concat(Set::empty(), left, right);
    assert(Set::<ProgrammeMergeKey>::empty().union(slots(left)) =~= slots(left));
}

proof fn lemma_first_by_id_order(channels: Seq<SpecChannel>, i: int, j: int) -> (at: (int, int))
    requires
        0 <= i < j < first_by_id(channels).len(),
    ensures
        0 <= at.0 < at.1 < channels.len(),
        first_by_id(channels)[i] == channels[at.0],
        first_by_id(channels)[j] == channels[at.1],
        forall|r: int| 0 <= r < at.0 ==> (#[trigger] channels[r]).id != channels[at.0].id,
        forall|r: int| 0 <= r < at.1 ==> (#[trigger] channels[r]).id != channels[at.1].id,
    decreases channels.len(),
{
    let before = channels.drop_last();
    if j < first_by_id(before).len() {
        let at = lemma_first_by_id_order(before, i, j);
        assert forall|r: int| 0 <= r < at.0 implies (#[trigger] channels[r]).id
            != channels[at.0].id by {
            assert(before[r] == channels[r]);
        }
        assert forall|r: int| 0 <= r < at.1 implies (#[trigger] channels[r]).id
            != channels[at.1].id by {
            assert(before[r] == channels[r]);
        }
        at
    } else {
        let q = lemma_first_by_id_place(before, i);
        let last = channels.len() - 1;
        assert forall|r: int| 0 <= r < q implies (#[trigger] channels[r]).id != channels[q].id by {
            assert(before[r] == channels[r]);
        }
        assert forall|r: int| 0 <= r < last implies (#[trigger] channels[r]).id
            != channels[last].id by {
            if channels[r].id == channels[last].id {
                assert(before[r] == channels[r]);
                assert(has_id(before, channels.last().id));
            }
        }
        (q, last)
    }
}

/// Merged channels stand in the order in which the most preferred places with their ids stand.
pub proof fn law_order_of_merged_channels(
    sources: Seq<(i16, Seq<SpecChannel>)>,
    i: int,
    j: int,
) -> (places: ((int, int), (int, int)))
    requires
        0 <= i < j < merged_channels(sources).len(),
    ensures
        ({
            let ((k, m), (l, n)) = places;
            let merged = merged_channels(sources);
            &&& is_place(sources, k, m)
            &&& sources[k].1[m].id == merged[i].id
            &&& is_place(sources, l, n)
            &&& sources[l].1[n].id == merged[j].id
            &&& preferred(sources, k, m, l, n)
            &&& forall|a: int, b: int| #[trigger]
                is_place(sources, a, b) && sources[a].1[b].id == merged[i].id ==> !preferred(
                    sources,
                    a,
                    b,
                    k,
                    m,
                )
            &&& forall|a: int, b: int| #[trigger]
                is_place(sources, a, b) && sources[a].1[b].id == merged[j].id ==> !preferred(
                    sources,
                    a,
                    b,
                    l,
                    n,
                )
        }),
{
    let channels = by_preference(sources);
    let merged = merged_channels(sources);
    let winners = first_by_id(channels);
    let (q, r) = lemma_first_by_id_order(channels, i, j);
    let (k, m) = lemma_preference_place(sources, q);
    let (l, n) = lemma_preference_place(sources, r);
    lemma_first_by_id(channels);
    assert(merged[i].id == winners[i].id);
    assert(merged[j].id == winners[j].id);
    assert(winners[i].id != winners[j].id);
    assert(is_place(sources, k, m));
    assert(is_place(sources, l, n));
    assert forall|a: int, b: int| #[trigger]
        is_place(sources, a, b) && sources[a].1[b].id == merged[i].id implies !preferred(
        sources,
        a,
        b,
        k,
        m,
    ) by {
        if preferred(sources, a, b, k, m) {
            let x = choose|x: int|
                0 <= x < q && #[trigger] by_preference(sources)[x] == sources[a].1[b];
            assert(channels[x].id != channels[q].id);
        }
    }
    assert forall|a: int, b: int| #[trigger]
        is_place(sources, a, b) && sources[a].1[b].id == merged[j].id implies !preferred(
        sources,
        a,
        b,
        l,
        n,
    ) by {
        if preferred(sources, a, b, l, n) {
            let x = choose|x: int|
                0 <= x < r && #[trigger] by_preference(sources)[x] == sources[a].1[b];
            assert(channels[x].id != channels[r].id);
        }
    }
    if preferred(sources, l, n, k, m) {
        let x = choose|x: int|
            0 <= x < q && #[trigger] by_preference(sources)[x] == sources[l].1[n];
        assert(channels[x].id != channels[r].id);
    }
    ((k, m), (l, n))
}

/// A single channel is merged into itself, with the first programme of each slot, by start.
pub proof fn law_merge_of_one_channel(priority: i16, channel: SpecChannel)
    ensures
        ({
            let merged = merged_channels(seq![(priority, seq![channel])]);
            &&& merged.len() == 1
            &&& merged[0].id == channel.id
            &&& merged[0].title == channel.title
            &&& merged[0].icon == channel.icon
            &&& merged[0].programmes == stable_sorted(deduplicated(channel.programmes))
        }),
{
    let one = seq![channel];
    let sources: Seq<(i16, Seq<SpecChannel>)> = seq![(priority, one)];
    law_sorted_stays(sources);
    assert(sources.drop_last() =~= Seq::<(i16, Seq<SpecChannel>)>::empty());
    reveal_with_fuel(all_channels, 2);
    assert(by_preference(sources) =~= one);
    assert(one.drop_last() =~= Seq::<SpecChannel>::empty());
    reveal_with_fuel(first_by_id, 2);
    assert(!has_id(one.drop_last(), channel.id));
    assert(first_by_id(one) =~= one);
    reveal_with_fuel(programmes_of, 2);
    assert(programmes_of(one, channel.id) =~= channel.programmes);
}

} // verus!
