//! The guides of several sources.
use crate::cache::{EpgIdCache, SpecCache};
use crate::epg_merge::{merge_prioritized_channels, merged_channels, source_views};
use crate::guide::{epg_of_guide, guide_of_document};
use crate::model::{
    view_option, views, Attributes, Epg, EpgChannel, PersistedEpgSource, SpecChannel, SpecEpg,
    TVGuide,
};
use crate::sorting::{lemma_stable_sorted_map, stable_sort, stable_sorted, Ranked, SortKey};
use vstd::prelude::*;

verus! {

impl Ranked for Epg {
    /// Guides are ranked by their priority.
    open spec fn rank(&self) -> int {
        self.priority as int
    }
}

impl SortKey for Epg {
    fn sort_key(&self) -> (key: i64) {
        self.priority as i64
    }
}

impl Ranked for SpecEpg {
    open spec fn rank(&self) -> int {
        self.priority as int
    }
}

/// The position of the guide with the lowest number as its priority, the first one among equals.
pub open spec fn position_of_preferred(epgs: Seq<SpecEpg>) -> int
    decreases epgs.len(),
{
    if epgs.len() <= 1 {
        0
    } else {
        let before = position_of_preferred(epgs.drop_last());
        if epgs[before].priority <= epgs.last().priority {
            before
        } else {
            epgs.len() - 1
        }
    }
}

/// The channels of guides, each with the priority of its guide.
pub open spec fn guide_sources(epgs: Seq<SpecEpg>) -> Seq<(i16, Seq<SpecChannel>)> {
    Seq::new(epgs.len(), |i: int| (epgs[i].priority, epgs[i].children))
}

/// Guides merged into one, which has the attributes of the preferred guide.
pub open spec fn merged_guide(epgs: Seq<SpecEpg>) -> Option<SpecEpg> {
    if epgs.len() == 0 {
        None
    } else {
        Some(
            SpecEpg {
                logo_override: false,
                priority: 0,
                attributes: epgs[position_of_preferred(epgs)].attributes,
                children: merged_channels(guide_sources(epgs)),
            },
        )
    }
}

/// What a guide file holds, if it can be read.
pub open spec fn content_of(contents: Seq<Option<Vec<u8>>>, i: int) -> Option<Seq<u8>> {
    if 0 <= i < contents.len() {
        view_option(contents[i])
    } else {
        None
    }
}

/// What is known of the wanted channels, and the guides that were found in them, after the first
/// `count` files. A file that cannot be read counts for nothing.
pub open spec fn filtered(
    cache: SpecCache,
    sources: Seq<PersistedEpgSource>,
    contents: Seq<Option<Vec<u8>>>,
    count: nat,
) -> (SpecCache, Seq<SpecEpg>)
    decreases count,
{
    if count == 0 {
        (cache, Seq::empty())
    } else {
        let i = count - 1;
        let (known, epgs) = filtered(cache, sources, contents, i as nat);
        match content_of(contents, i) {
            Some(content) => {
                let guide = guide_of_document(known, content);
                (
                    guide.cache,
                    match epg_of_guide(guide, sources[i].priority, sources[i].logo_override) {
                        Some(epg) => epgs.push(epg),
                        None => epgs,
                    },
                )
            },
            None => (known, epgs),
        }
    }
}

proof fn lemma_epgs_sorted(epgs: Seq<Epg>)
    ensures
        views(stable_sorted(epgs)) == stable_sorted(views(epgs)),
{
    let f = |epg: Epg| epg@;
    lemma_stable_sorted_map(epgs, f);
    assert(views(epgs) =~= epgs.map_values(f));
    assert(views(stable_sorted(epgs)) =~= stable_sorted(epgs).map_values(f));
}

impl TVGuide {
    /// Merges guides into one; without a guide there is nothing to merge.
    pub fn merge(epgs: Vec<Epg>) -> (merged: Option<Epg>)
        ensures
            view_option(merged) == merged_guide(views(epgs@)),
    {
        if epgs.len() == 0 {
            return None;
        }
        let ghost all = views(epgs@);
        let ghost given = epgs@;
        let mut priority: i16 = 0;
        let mut attributes: Option<Attributes> = None;
        let mut channels_by_source: Vec<(i16, Vec<EpgChannel>)> = Vec::new();
        for epg in it: epgs
            invariant
                it.seq() == given,
                all == views(given),
                0 < it.index() ==> {
                    let preferred = position_of_preferred(all.take(it.index()));
                    &&& 0 <= preferred < it.index()
                    &&& priority == all[preferred].priority
                    &&& view_option(attributes) == all[preferred].attributes
                },
                it.index() == 0 ==> channels_by_source@.len() == 0,
                source_views(channels_by_source@) == guide_sources(all.take(it.index())),
        {
            let ghost before = channels_by_source@;
            proof {
                assert(all.take(it.index() + 1).drop_last() =~= all.take(it.index()));
                assert(all.take(it.index() + 1).last() == epg@);
            }
            if channels_by_source.len() == 0 || epg.priority < priority {
                priority = epg.priority;
                attributes = epg.attributes;
            }
            channels_by_source.push((epg.priority, epg.children));
            assert(source_views(channels_by_source@) =~= source_views(before).push(
                (epg.priority, views(epg.children@)),
            ));
            assert(guide_sources(all.take(it.index() + 1)) =~= guide_sources(
                all.take(it.index()),
            ).push((epg@.priority, epg@.children)));
        }
        assert(all.take(all.len() as int) =~= all);
        let children = merge_prioritized_channels(channels_by_source);
        Some(Epg { logo_override: false, priority: 0, attributes, children })
    }

    /// Reads the guides of the wanted channels out of the contents of the guide files, ordered by
    /// priority. Nothing is read if no channel is wanted.
    pub fn filter(&self, id_cache: &mut EpgIdCache, contents: &Vec<Option<Vec<u8>>>) -> (epgs:
        Option<Vec<Epg>>)
        ensures
            epgs is None <==> old(id_cache)@.channel_epg_id == Set::<Seq<char>>::empty() && old(
                id_cache,
            )@.normalized == Map::<Seq<char>, Option<Seq<char>>>::empty(),
            match epgs {
                None => final(id_cache)@ == old(id_cache)@,
                Some(found) => {
                    let read = filtered(
                        old(id_cache)@,
                        self.sources(),
                        contents@,
                        self.sources().len(),
                    );
                    &&& final(id_cache)@ == read.0
                    &&& views(found@) == stable_sorted(read.1)
                },
            },
    {
        if id_cache.is_empty() {
            return None;
        }
        let ghost start = id_cache@;
        let mut epg_sources: Vec<Epg> = Vec::new();
        assert(views(epg_sources@) =~= Seq::<SpecEpg>::empty());
        let sources = self.get_epg_sources();
        for i in 0..sources.len()
            invariant
                sources@ == self.sources(),
                (id_cache@, views(epg_sources@)) == filtered(
                    start,
                    self.sources(),
                    contents@,
                    i as nat,
                ),
        {
            if i < contents.len() {
                if let Some(content) = &contents[i] {
                    let ghost before = epg_sources@;
                    if let Some(epg) = Self::process_epg_file(
                        id_cache,
                        &sources[i],
                        content.as_slice(),
                    ) {
                        epg_sources.push(epg);
                        assert(views(epg_sources@) =~= views(before).push(epg@));
                    }
                }
            }
        }
        proof {
            lemma_epgs_sorted(epg_sources@);
        }
        Some(stable_sort(epg_sources))
    }
}

/// Merges the guides of all sources into the one that is handed out.
pub fn flatten_tvguide(tv_guides: Vec<Epg>) -> (flattened: Option<Epg>)
    ensures
        view_option(flattened) == merged_guide(views(tv_guides@)),
{
    TVGuide::merge(tv_guides)
}

} // verus!
