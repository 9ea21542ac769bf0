//! What holds of the guides of several sources.
use crate::cache::SpecCache;
use crate::channels::distinct_ids;
use crate::epg_merge::merged_channels;
use crate::guide::guide_of_document;
use crate::guide_laws::{
    ids, law_cache_only_grows, law_channels_are_wanted, law_channels_of_a_guide,
    law_processed_ids_are_those_of_the_channels, programmes_belong,
};
use crate::merge_laws::law_merge_is_idempotent;
use crate::model::{PersistedEpgSource, SpecEpg};
use crate::sorting::{
    ascending, insert_ranked, law_sort_is_sorted_permutation, law_sort_is_stable,
    law_sorted_stays, lemma_stable_sorted_map, stable_sorted, Ranked,
};
use crate::tvguide::{
    content_of, filtered, guide_sources, merged_guide, position_of_preferred,
};
use crate::xmltv::document_tags;
use vstd::prelude::*;

verus! {

/// The ids of the channels of all guides.
pub open spec fn all_ids(epgs: Seq<SpecEpg>) -> Set<Seq<char>>
    decreases epgs.len(),
{
    if epgs.len() == 0 {
        Set::empty()
    } else {
        all_ids(epgs.drop_last()).union(ids(epgs.last().children))
    }
}

/// Reading files leaves the configuration and the set of wanted names as they are, the set of
/// wanted ids only grows, and the ids that were processed are those from before and those of the
/// channels of all the guides that were found.
pub proof fn law_processed_ids_accumulate(
    cache: SpecCache,
    sources: Seq<PersistedEpgSource>,
    contents: Seq<Option<Vec<u8>>>,
    count: nat,
)
    ensures
        ({
            let (known, epgs) = filtered(cache, sources, contents, count);
            &&& known.smart_match_config == cache.smart_match_config
            &&& known.normalized.dom() == cache.normalized.dom()
            &&& cache.channel_epg_id.subset_of(known.channel_epg_id)
            &&& known.processed == cache.processed.union(all_ids(epgs))
        }),
    decreases count,
{
    let (known, epgs) = filtered(cache, sources, contents, count);
    if count > 0 {
        let i = count - 1;
        let (before, earlier) = filtered(cache, sources, contents, i as nat);
        law_processed_ids_accumulate(cache, sources, contents, i as nat);
        if content_of(contents, i) is Some {
            let content = content_of(contents, i)->0;
            let config = before.smart_match_config;
            let fuzzy = config.enabled && config.fuzzy_matching;
            law_cache_only_grows(before, document_tags(content), config.enabled, fuzzy);
            law_processed_ids_are_those_of_the_channels(
                before,
                document_tags(content),
                config.enabled,
                fuzzy,
            );
            let guide = guide_of_document(before, content);
            if guide.channels.len() == 0 {
                assert(ids(guide.channels) =~= Set::empty());
            } else {
                assert(epgs.drop_last() =~= earlier);
                assert(epgs.last().children == guide.channels);
            }
        }
    }
    assert(known.processed =~= cache.processed.union(all_ids(epgs)));
}

/// Every guide that is found has a channel, one for each id; all its channels are wanted, and all
/// its programmes stand with their own channels.
pub proof fn law_guides_that_are_found(
    cache: SpecCache,
    sources: Seq<PersistedEpgSource>,
    contents: Seq<Option<Vec<u8>>>,
    count: nat,
    i: int,
)
    requires
        0 <= i < filtered(cache, sources, contents, count).1.len(),
    ensures
        ({
            let (known, epgs) = filtered(cache, sources, contents, count);
            &&& epgs[i].children.len() > 0
            &&& distinct_ids(epgs[i].children)
            &&& programmes_belong(epgs[i].children)
            &&& ids(epgs[i].children).subset_of(known.channel_epg_id)
        }),
    decreases count,
{
    if count > 0 {
        let n = count - 1;
        let (before, earlier) = filtered(cache, sources, contents, n as nat);
        if i < earlier.len() {
            law_guides_that_are_found(cache, sources, contents, n as nat, i);
        }
        if content_of(contents, n) is Some {
            let content = content_of(contents, n)->0;
            let config = before.smart_match_config;
            let fuzzy = config.enabled && config.fuzzy_matching;
            law_cache_only_grows(before, document_tags(content), config.enabled, fuzzy);
            law_channels_are_wanted(before, document_tags(content), config.enabled, fuzzy);
            law_channels_of_a_guide(before, document_tags(content), config.enabled, fuzzy);
        }
    }
}

/// The guides that are handed out are those that were found, by priority.
pub proof fn law_guides_are_ordered_by_priority(epgs: Seq<SpecEpg>)
    ensures
        ascending(stable_sorted(epgs)),
        stable_sorted(epgs).to_multiset() == epgs.to_multiset(),
{
    law_sort_is_sorted_permutation(epgs);
}

/// The preferred guide has the lowest number as its priority, and stands before all others that
/// have the same.
pub proof fn law_preferred_guide(epgs: Seq<SpecEpg>)
    requires
        epgs.len() > 0,
    ensures
        0 <= position_of_preferred(epgs) < epgs.len(),
        forall|i: int|
            0 <= i < epgs.len() ==> epgs[position_of_preferred(epgs)].priority <= (
            #[trigger] epgs[i]).priority,
        forall|i: int|
            0 <= i < position_of_preferred(epgs) ==> epgs[position_of_preferred(epgs)].priority < (
            #[trigger] epgs[i]).priority,
    decreases epgs.len(),
{
    if epgs.len() > 1 {
        let shorter = epgs.drop_last();
        law_preferred_guide(shorter);
        assert forall|i: int| 0 <= i < shorter.len() implies epgs[i] == shorter[i] by {}
    }
}

/// Merging a merged guide once more changes nothing.
pub proof fn law_merging_once_is_enough(epgs: Seq<SpecEpg>)
    requires
        epgs.len() > 0,
    ensures
        merged_guide(seq![merged_guide(epgs)->0]) == merged_guide(epgs),
{
    let merged = merged_guide(epgs)->0;
    let again = seq![merged];
    law_merge_is_idempotent(guide_sources(epgs), 0);
    assert(guide_sources(again) =~= seq![(0i16, merged.children)]);
}

proof fn lemma_first_of_insert(items: Seq<SpecEpg>, item: SpecEpg)
    requires
        items.len() > 0,
        ascending(items),
    ensures
        insert_ranked(items, item).len() == items.len() + 1,
        insert_ranked(items, item)[0] == if items[0].priority <= item.priority {
            items[0]
        } else {
            item
        },
    decreases items.len(),
{
    if items.last().rank() <= item.rank() {
        assert(items[0].rank() <= items[items.len() - 1].rank());
    } else if items.len() > 1 {
        assert(ascending(items.drop_last()));
        lemma_first_of_insert(items.drop_last(), item);
    } else {
        assert(insert_ranked(items.drop_last(), item) == items.drop_last().push(item));
    }
}

proof fn lemma_first_of_sorted(epgs: Seq<SpecEpg>)
    requires
        epgs.len() > 0,
    ensures
        stable_sorted(epgs).len() == epgs.len(),
        stable_sorted(epgs)[0] == epgs[position_of_preferred(epgs)],
    decreases epgs.len(),
{
    let shorter = epgs.drop_last();
    if shorter.len() > 0 {
        lemma_first_of_sorted(shorter);
        law_sort_is_sorted_permutation(shorter);
        law_preferred_guide(shorter);
        lemma_first_of_insert(stable_sorted(shorter), epgs.last());
    } else {
        assert(stable_sorted(shorter) =~= Seq::empty());
    }
}

proof fn lemma_preferred_of_sorted(epgs: Seq<SpecEpg>)
    requires
        epgs.len() > 0,
        ascending(epgs),
    ensures
        position_of_preferred(epgs) == 0,
{
    law_preferred_guide(epgs);
    let at = position_of_preferred(epgs);
    if at > 0 {
        assert(epgs[0].rank() <= epgs[at].rank());
        assert(epgs[at].priority < epgs[0].priority);
    }
}

/// It makes no difference whether guides are ordered by priority before they are merged.
pub proof fn law_order_before_merging(epgs: Seq<SpecEpg>)
    ensures
        merged_guide(stable_sorted(epgs)) == merged_guide(epgs),
{
    let sorted = stable_sorted(epgs);
    if epgs.len() > 0 {
        law_sort_is_sorted_permutation(epgs);
        lemma_first_of_sorted(epgs);
        lemma_preferred_of_sorted(sorted);
        lemma_sources_of_sorted(epgs);
        law_sort_is_sorted_permutation(guide_sources(epgs));
        law_sorted_stays(stable_sorted(guide_sources(epgs)));
    } else {
        assert(sorted =~= Seq::empty());
    }
}

proof fn lemma_sources_of_sorted(epgs: Seq<SpecEpg>)
    ensures
        guide_sources(stable_sorted(epgs)) == stable_sorted(guide_sources(epgs)),
{
    let f = |epg: SpecEpg| (epg.priority, epg.children);
    lemma_stable_sorted_map(epgs, f);
    assert(guide_sources(epgs) =~= epgs.map_values(f));
    assert(guide_sources(stable_sorted(epgs)) =~= stable_sorted(epgs).map_values(f));
}

/// Before any file nothing is found. A file that cannot be read counts for nothing; one that can
/// is read with what the files before it left, and what it holds stands behind what they held, with
/// the priority and the logo setting of its own source, unless it holds no wanted channel.
pub proof fn law_every_file_is_read(
    cache: SpecCache,
    sources: Seq<PersistedEpgSource>,
    contents: Seq<Option<Vec<u8>>>,
    i: nat,
)
    ensures
        filtered(cache, sources, contents, 0).0 == cache,
        filtered(cache, sources, contents, 0).1.len() == 0,
        ({
            let (before, earlier) = filtered(cache, sources, contents, i);
            let (after, epgs) = filtered(cache, sources, contents, i + 1);
            if i < contents.len() && contents[i as int] is Some {
                let guide = guide_of_document(before, contents[i as int]->0@);
                &&& after == guide.cache
                &&& guide.channels.len() == 0 ==> epgs == earlier
                &&& guide.channels.len() > 0 ==> {
                    &&& epgs.len() == earlier.len() + 1
                    &&& epgs.drop_last() == earlier
                    &&& epgs.last().children == guide.channels
                    &&& epgs.last().attributes == guide.attributes
                    &&& epgs.last().priority == sources[i as int].priority
                    &&& epgs.last().logo_override == sources[i as int].logo_override
                }
            } else {
                after == before && epgs == earlier
            }
        }),
{
    let (before, earlier) = filtered(cache, sources, contents, i);
    let (after, epgs) = filtered(cache, sources, contents, i + 1);
    if epgs.len() > 0 && content_of(contents, i as int) is Some {
        let guide = guide_of_document(before, content_of(contents, i as int)->0);
        if guide.channels.len() > 0 {
            assert(epgs.drop_last() =~= earlier);
        }
    }
}

/// Guides are ranked by their priority, and the channels of each are merged with that priority. A
/// merge has the attributes of the preferred guide; there is none exactly if there is no guide.
pub proof fn law_merged_guide(epgs: Seq<SpecEpg>)
    ensures
        merged_guide(epgs) is None <==> epgs.len() == 0,
        guide_sources(epgs).len() == epgs.len(),
        forall|i: int|
            0 <= i < epgs.len() ==> (#[trigger] guide_sources(epgs)[i]).0 == epgs[i].priority
                && guide_sources(epgs)[i].1 == epgs[i].children,
        merged_guide(epgs) matches Some(merged) ==> {
            &&& merged.children == merged_channels(guide_sources(epgs))
            &&& merged.priority == 0
            &&& !merged.logo_override
            &&& exists|i: int|
                0 <= i < epgs.len() && merged.attributes == (#[trigger] epgs[i]).attributes
                    && forall|k: int|
                    0 <= k < epgs.len() ==> epgs[i].priority <= (#[trigger] epgs[k]).priority && (k
                        < i ==> epgs[i].priority < epgs[k].priority)
        },
        forall|i: int, j: int|
            0 <= i <= j < epgs.len() ==> (#[trigger] stable_sorted(epgs)[i]).priority <= (
            #[trigger] stable_sorted(epgs)[j]).priority,
{
    if epgs.len() > 0 {
        law_preferred_guide(epgs);
        let at = position_of_preferred(epgs);
        assert(merged_guide(epgs)->0.attributes == epgs[at].attributes);
    }
    law_sort_is_sorted_permutation(epgs);
    law_sort_is_stable(epgs);
    assert forall|i: int, j: int| 0 <= i <= j < epgs.len() implies (#[trigger] stable_sorted(
        epgs,
    )[i]).priority <= (#[trigger] stable_sorted(epgs)[j]).priority by {
        assert(stable_sorted(epgs)[i].rank() <= stable_sorted(epgs)[j].rank());
    }
}

} // verus!
