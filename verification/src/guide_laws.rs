//! What holds of every guide that is read.
use crate::cache::SpecCache;
use crate::channels::{distinct_ids, with_channel, with_metadata, with_programme};
use crate::epg_merge::has_id;
use crate::fuzzy::law_matched_name_is_wanted;
use crate::guide::{
    channel_added, first_value, guide_of_tags, prepared_tag, programme_of_tag, tag_added,
    SpecGuide,
};
use crate::model::{SpecChannel, SpecProgramme};
use crate::tag::{
    lemma_tag_names_differ, SpecTag, EPG_ATTRIB_CHANNEL, EPG_ATTRIB_ID, EPG_TAG_CHANNEL,
    EPG_TAG_DISPLAY_NAME, EPG_TAG_PROGRAMME,
};
use vstd::prelude::*;

verus! {

/// The ids of channels.
pub open spec fn ids(channels: Seq<SpecChannel>) -> Set<Seq<char>> {
    Set::new(|id: Seq<char>| has_id(channels, id))
}

/// Whether every programme of every channel is one of that channel.
pub open spec fn programmes_belong(channels: Seq<SpecChannel>) -> bool {
    forall|i: int, j: int|
        0 <= i < channels.len() && 0 <= j < channels[i].programmes.len() ==> (
        #[trigger] channels[i].programmes[j]).channel == channels[i].id
}

proof fn lemma_with_metadata_ids(
    channels: Seq<SpecChannel>,
    id: Seq<char>,
    title: Option<Seq<char>>,
    icon: Option<Seq<char>>,
)
    ensures
        ids(with_metadata(channels, id, title, icon)) == ids(channels),
{
    let after = with_metadata(channels, id, title, icon);
    assert forall|other: Seq<char>| has_id(after, other) <==> has_id(channels, other) by {
        if has_id(channels, other) {
            let k = choose|k: int| 0 <= k < channels.len() && (#[trigger] channels[k]).id == other;
            assert(after[k].id == other);
        }
        if has_id(after, other) {
            let k = choose|k: int| 0 <= k < after.len() && (#[trigger] after[k]).id == other;
            assert(channels[k].id == other);
        }
    }
    assert(ids(after) =~= ids(channels));
}

proof fn lemma_with_programme_ids(
    channels: Seq<SpecChannel>,
    id: Seq<char>,
    programme: SpecProgramme,
)
    ensures
        ids(with_programme(channels, id, programme)) == ids(channels),
{
    let after = with_programme(channels, id, programme);
    assert forall|other: Seq<char>| has_id(after, other) <==> has_id(channels, other) by {
        if has_id(channels, other) {
            let k = choose|k: int| 0 <= k < channels.len() && (#[trigger] channels[k]).id == other;
            assert(after[k].id == other);
        }
        if has_id(after, other) {
            let k = choose|k: int| 0 <= k < after.len() && (#[trigger] after[k]).id == other;
            assert(channels[k].id == other);
        }
    }
    assert(ids(after) =~= ids(channels));
}

proof fn lemma_with_channel_ids(
    channels: Seq<SpecChannel>,
    id: Seq<char>,
    title: Option<Seq<char>>,
    icon: Option<Seq<char>>,
)
    ensures
        ids(with_channel(channels, id, title, icon)) == ids(channels).insert(id),
{
    let after = with_channel(channels, id, title, icon);
    assert forall|other: Seq<char>|
        has_id(after, other) <==> has_id(channels, other) || other == id by {
        if has_id(channels, other) {
            let k = choose|k: int| 0 <= k < channels.len() && (#[trigger] channels[k]).id == other;
            assert(after[k].id == other);
        }
        assert(after[channels.len() as int].id == id);
        if has_id(after, other) {
            let k = choose|k: int| 0 <= k < after.len() && (#[trigger] after[k]).id == other;
            if k < channels.len() {
                assert(channels[k].id == other);
            }
        }
    }
    assert(ids(after) =~= ids(channels).insert(id));
}

/// Reading tags leaves the configuration, the phonetic codes and the set of wanted names as they
/// are, and the sets of wanted ids and of processed ids only grow.
pub proof fn law_cache_only_grows(
    cache: SpecCache,
    tags: Seq<SpecTag>,
    smart_match: bool,
    fuzzy_matching: bool,
)
    ensures
        ({
            let after = guide_of_tags(cache, tags, smart_match, fuzzy_matching).cache;
            &&& after.smart_match_config == cache.smart_match_config
            &&& after.phonetics == cache.phonetics
            &&& after.normalized.dom() == cache.normalized.dom()
            &&& cache.channel_epg_id.subset_of(after.channel_epg_id)
            &&& cache.processed.subset_of(after.processed)
        }),
    decreases tags.len(),
{
    if tags.len() > 0 {
        law_cache_only_grows(cache, tags.drop_last(), smart_match, fuzzy_matching);
        let before = guide_of_tags(cache, tags.drop_last(), smart_match, fuzzy_matching).cache;
        lemma_channel_added_cache(
            before,
            guide_of_tags(cache, tags.drop_last(), smart_match, fuzzy_matching).channels,
            tags.last(),
            smart_match,
            fuzzy_matching,
        );
    }
}

proof fn lemma_channel_added_cache(
    cache: SpecCache,
    channels: Seq<SpecChannel>,
    tag: SpecTag,
    smart_match: bool,
    fuzzy_matching: bool,
)
    ensures
        ({
            let after = channel_added(cache, channels, tag, smart_match, fuzzy_matching).0;
            &&& after.smart_match_config == cache.smart_match_config
            &&& after.phonetics == cache.phonetics
            &&& after.normalized.dom() == cache.normalized.dom()
            &&& cache.channel_epg_id.subset_of(after.channel_epg_id)
            &&& cache.processed.subset_of(after.processed)
        }),
{
    let after = channel_added(cache, channels, tag, smart_match, fuzzy_matching).0;
    let names = prepared_tag(
        tag,
        cache.smart_match_config,
        smart_match,
    ).ids();
    law_matched_name_is_wanted(cache, names, fuzzy_matching);
    assert(after.normalized.dom() =~= cache.normalized.dom());
}

/// The ids that were processed are those from before and those of the channels that were read.
pub proof fn law_processed_ids_are_those_of_the_channels(
    cache: SpecCache,
    tags: Seq<SpecTag>,
    smart_match: bool,
    fuzzy_matching: bool,
)
    ensures
        ({
            let guide = guide_of_tags(cache, tags, smart_match, fuzzy_matching);
            guide.cache.processed == cache.processed.union(ids(guide.channels))
        }),
    decreases tags.len(),
{
    let guide = guide_of_tags(cache, tags, smart_match, fuzzy_matching);
    if tags.len() > 0 {
        law_processed_ids_are_those_of_the_channels(
            cache,
            tags.drop_last(),
            smart_match,
            fuzzy_matching,
        );
        let before = guide_of_tags(cache, tags.drop_last(), smart_match, fuzzy_matching);
        lemma_tag_ids(before, tags.last(), smart_match, fuzzy_matching);
    }
    assert(guide.cache.processed =~= cache.processed.union(ids(guide.channels)));
}

/// A tag adds at most one id, and then notes it as processed and wanted.
proof fn lemma_tag_ids(guide: SpecGuide, tag: SpecTag, smart_match: bool, fuzzy_matching: bool)
    ensures
        ({
            let after = tag_added(guide, tag, smart_match, fuzzy_matching);
            ||| (ids(after.channels) == ids(guide.channels) && after.cache == guide.cache)
            ||| {
                let id = tag.attribute(EPG_ATTRIB_ID@)->0;
                &&& tag.name == EPG_TAG_CHANNEL@
                &&& tag.has_text(EPG_ATTRIB_ID@)
                &&& ids(after.channels) == ids(guide.channels).insert(id)
                &&& after.cache.processed == guide.cache.processed.insert(id)
                &&& after.cache.channel_epg_id.contains(id)
            }
        }),
{
    lemma_tag_names_differ();
    let after = tag_added(guide, tag, smart_match, fuzzy_matching);
    if tag.name == EPG_TAG_CHANNEL@ && tag.has_text(EPG_ATTRIB_ID@) {
        let id = tag.attribute(EPG_ATTRIB_ID@)->0;
        let prepared = prepared_tag(
            tag,
            guide.cache.smart_match_config,
            smart_match,
        );
        let title = first_value(tag.child_tags(), EPG_TAG_DISPLAY_NAME@);
        lemma_with_metadata_ids(guide.channels, id, title, prepared.icon);
        lemma_with_channel_ids(guide.channels, id, title, prepared.icon);
        if has_id(guide.channels, id) {
            assert(ids(guide.channels).insert(id) =~= ids(guide.channels));
        }
    } else if tag.name == EPG_TAG_PROGRAMME@ {
        let id = tag.attribute(EPG_ATTRIB_CHANNEL@);
        if id is Some && programme_of_tag(tag, id->0) is Some {
            lemma_with_programme_ids(guide.channels, id->0, programme_of_tag(tag, id->0)->0);
        }
    }
}

/// Every channel of a guide is wanted: its id is among the wanted ids when the guide was read.
pub proof fn law_channels_are_wanted(
    cache: SpecCache,
    tags: Seq<SpecTag>,
    smart_match: bool,
    fuzzy_matching: bool,
)
    ensures
        ({
            let guide = guide_of_tags(cache, tags, smart_match, fuzzy_matching);
            ids(guide.channels).subset_of(guide.cache.channel_epg_id)
        }),
    decreases tags.len(),
{
    if tags.len() > 0 {
        law_channels_are_wanted(cache, tags.drop_last(), smart_match, fuzzy_matching);
        let before = guide_of_tags(cache, tags.drop_last(), smart_match, fuzzy_matching);
        lemma_tag_ids(before, tags.last(), smart_match, fuzzy_matching);
        lemma_channel_added_cache(
            before.cache,
            before.channels,
            tags.last(),
            smart_match,
            fuzzy_matching,
        );
    }
}

/// A guide has one channel for each id, and every programme stands with its own channel.
pub proof fn law_channels_of_a_guide(
    cache: SpecCache,
    tags: Seq<SpecTag>,
    smart_match: bool,
    fuzzy_matching: bool,
)
    ensures
        ({
            let channels = guide_of_tags(cache, tags, smart_match, fuzzy_matching).channels;
            distinct_ids(channels) && programmes_belong(channels)
        }),
    decreases tags.len(),
{
    if tags.len() > 0 {
        law_channels_of_a_guide(cache, tags.drop_last(), smart_match, fuzzy_matching);
        let before = guide_of_tags(cache, tags.drop_last(), smart_match, fuzzy_matching);
        let after = guide_of_tags(cache, tags, smart_match, fuzzy_matching).channels;
        let channels = before.channels;
        assert forall|i: int, j: int| 0 <= i < j < after.len() implies (#[trigger] after[i]).id != (
        #[trigger] after[j]).id by {
            if j < channels.len() {
                assert(after[i].id == channels[i].id && after[j].id == channels[j].id);
            } else {
                assert(after[i].id == channels[i].id);
                if after[i].id == after[j].id {
                    assert(has_id(channels, after[j].id));
                }
            }
        }
        assert forall|i: int, j: int|
            0 <= i < after.len() && 0 <= j < after[i].programmes.len() implies (
        #[trigger] after[i].programmes[j]).channel == after[i].id by {
            if i < channels.len() && j < channels[i].programmes.len() {
                assert(channels[i].programmes[j].channel == channels[i].id);
            }
        }
    }
}

/// Where channels are not matched by name, a tag adds its id if it is that of a wanted channel.
proof fn lemma_tag_by_id(guide: SpecGuide, tag: SpecTag, fuzzy_matching: bool, id: Seq<char>)
    ensures
        ({
            let after = tag_added(guide, tag, false, fuzzy_matching);
            &&& after.cache.channel_epg_id == guide.cache.channel_epg_id
            &&& after.cache.normalized == guide.cache.normalized
            &&& has_id(after.channels, id) <==> has_id(guide.channels, id) || (is_channel(tag, id)
                && guide.cache.channel_epg_id.contains(id))
        }),
{
    lemma_tag_names_differ();
    lemma_tag_ids(guide, tag, false, fuzzy_matching);
    let after = tag_added(guide, tag, false, fuzzy_matching);
    assert(ids(after.channels).contains(id) == has_id(after.channels, id));
    assert(ids(guide.channels).contains(id) == has_id(guide.channels, id));
    if tag.name == EPG_TAG_CHANNEL@ && tag.has_text(EPG_ATTRIB_ID@) {
        let own = tag.attribute(EPG_ATTRIB_ID@)->0;
        if guide.cache.channel_epg_id.contains(own) {
            assert(after.cache.processed.contains(own));
            lemma_added_channel_is_there(guide, tag, fuzzy_matching);
        }
    }
}

/// Where channels are not matched by name, a channel that is wanted is there after its tag.
proof fn lemma_added_channel_is_there(guide: SpecGuide, tag: SpecTag, fuzzy_matching: bool)
    requires
        tag.name == EPG_TAG_CHANNEL@,
        tag.has_text(EPG_ATTRIB_ID@),
        guide.cache.channel_epg_id.contains(tag.attribute(EPG_ATTRIB_ID@)->0),
    ensures
        has_id(
            tag_added(guide, tag, false, fuzzy_matching).channels,
            tag.attribute(EPG_ATTRIB_ID@)->0,
        ),
{
    let id = tag.attribute(EPG_ATTRIB_ID@)->0;
    let icon = prepared_tag(tag, guide.cache.smart_match_config, false).icon;
    let title = first_value(tag.child_tags(), EPG_TAG_DISPLAY_NAME@);
    if has_id(guide.channels, id) {
        lemma_with_metadata_ids(guide.channels, id, title, icon);
        let after = with_metadata(guide.channels, id, title, icon);
        assert(ids(after).contains(id) == ids(guide.channels).contains(id));
    } else {
        lemma_with_channel_ids(guide.channels, id, title, icon);
        let after = with_channel(guide.channels, id, title, icon);
        assert(ids(after).contains(id));
    }
}

proof fn lemma_is_channel_of(tags: Seq<SpecTag>, id: Seq<char>)
    requires
        tags.len() > 0,
    ensures
        is_channel_of(tags, id) <==> is_channel_of(tags.drop_last(), id) || is_channel(
            tags.last(),
            id,
        ),
{
    let shorter = tags.drop_last();
    if is_channel_of(shorter, id) {
        let k = choose|k: int| 0 <= k < shorter.len() && is_channel(#[trigger] shorter[k], id);
        assert(is_channel(tags[k], id));
    }
    if is_channel_of(tags, id) {
        let k = choose|k: int| 0 <= k < tags.len() && is_channel(#[trigger] tags[k], id);
        if k < shorter.len() {
            assert(is_channel(shorter[k], id));
        }
    }
    assert(tags.last() == tags[tags.len() - 1]);
}

/// Where channels are not matched by name, which ids and names are wanted does not change, and a
/// guide has a channel exactly if a tag holds it and its id is wanted.
pub proof fn law_channels_by_id(
    cache: SpecCache,
    tags: Seq<SpecTag>,
    fuzzy_matching: bool,
    id: Seq<char>,
)
    ensures
        ({
            let guide = guide_of_tags(cache, tags, false, fuzzy_matching);
            &&& guide.cache.channel_epg_id == cache.channel_epg_id
            &&& guide.cache.normalized == cache.normalized
            &&& has_id(guide.channels, id) <==> cache.channel_epg_id.contains(id)
                && is_channel_of(tags, id)
        }),
    decreases tags.len(),
{
    if tags.len() > 0 {
        law_channels_by_id(cache, tags.drop_last(), fuzzy_matching, id);
        let before = guide_of_tags(cache, tags.drop_last(), false, fuzzy_matching);
        lemma_tag_by_id(before, tags.last(), fuzzy_matching, id);
        lemma_is_channel_of(tags, id);
    }
}

/// Whether a tag is the channel with this id.
pub open spec fn is_channel(tag: SpecTag, id: Seq<char>) -> bool {
    tag.name == EPG_TAG_CHANNEL@ && tag.has_text(EPG_ATTRIB_ID@) && tag.attribute(EPG_ATTRIB_ID@)
        == Some(id)
}

/// Whether there is a channel with this id among the tags.
pub open spec fn is_channel_of(tags: Seq<SpecTag>, id: Seq<char>) -> bool {
    exists|k: int| 0 <= k < tags.len() && is_channel(#[trigger] tags[k], id)
}

/// Whether a channel is what became of another one: it has its id, its title and icon if it had
/// them, and its programmes before any other.
pub open spec fn grew_from(after: SpecChannel, before: SpecChannel) -> bool {
    &&& after.id == before.id
    &&& before.title is Some ==> after.title == before.title
    &&& before.icon is Some ==> after.icon == before.icon
    &&& before.programmes.is_prefix_of(after.programmes)
}

/// More tags take nothing away from the channels that are there: they stay in their places, keep
/// their titles and icons, and only get more programmes.
pub proof fn law_channels_only_grow(
    cache: SpecCache,
    tags: Seq<SpecTag>,
    more: Seq<SpecTag>,
    smart_match: bool,
    fuzzy_matching: bool,
)
    ensures
        ({
            let before = guide_of_tags(cache, tags, smart_match, fuzzy_matching).channels;
            let after = guide_of_tags(cache, tags + more, smart_match, fuzzy_matching).channels;
            &&& before.len() <= after.len()
            &&& forall|i: int| 0 <= i < before.len() ==> grew_from(#[trigger] after[i], before[i])
        }),
    decreases more.len(),
{
    if more.len() == 0 {
        assert(tags + more =~= tags);
    } else {
        let shorter = more.drop_last();
        law_channels_only_grow(cache, tags, shorter, smart_match, fuzzy_matching);
        assert((tags + more).drop_last() =~= tags + shorter);
        assert((tags + more).last() == more.last());
        let first = guide_of_tags(cache, tags, smart_match, fuzzy_matching).channels;
        let middle = guide_of_tags(cache, tags + shorter, smart_match, fuzzy_matching);
        let after = tag_added(middle, more.last(), smart_match, fuzzy_matching).channels;
        lemma_channels_grow(middle, more.last(), smart_match, fuzzy_matching);
        assert forall|i: int| 0 <= i < first.len() implies grew_from(
            #[trigger] after[i],
            first[i],
        ) by {
            assert(grew_from(middle.channels[i], first[i]));
            assert(grew_from(after[i], middle.channels[i]));
        }
    }
}

proof fn lemma_channels_grow(
    guide: SpecGuide,
    tag: SpecTag,
    smart_match: bool,
    fuzzy_matching: bool,
)
    ensures
        ({
            let after = tag_added(guide, tag, smart_match, fuzzy_matching).channels;
            &&& guide.channels.len() <= after.len()
            &&& forall|i: int|
                0 <= i < guide.channels.len() ==> grew_from(#[trigger] after[i], guide.channels[i])
        }),
{
    lemma_tag_names_differ();
}

/// A wanted name has the guide id that it had before, or one of a channel that was read.
pub proof fn law_names_get_ids_of_channels(
    cache: SpecCache,
    tags: Seq<SpecTag>,
    smart_match: bool,
    fuzzy_matching: bool,
    name: Seq<char>,
)
    requires
        cache.normalized.contains_key(name),
    ensures
        ({
            let guide = guide_of_tags(cache, tags, smart_match, fuzzy_matching);
            let found = guide.cache.normalized[name];
            found == cache.normalized[name] || (found is Some && has_id(guide.channels, found->0))
        }),
    decreases tags.len(),
{
    if tags.len() > 0 {
        let tag = tags.last();
        law_names_get_ids_of_channels(
            cache,
            tags.drop_last(),
            smart_match,
            fuzzy_matching,
            name,
        );
        let before = guide_of_tags(cache, tags.drop_last(), smart_match, fuzzy_matching);
        let after = tag_added(before, tag, smart_match, fuzzy_matching);
        lemma_tag_ids(before, tag, smart_match, fuzzy_matching);
        assert forall|id: Seq<char>| has_id(before.channels, id) implies #[trigger] has_id(
            after.channels,
            id,
        ) by {
            assert(ids(before.channels).contains(id));
            assert(ids(after.channels).contains(id));
        }
        if after.cache.normalized[name] != before.cache.normalized[name] {
            let id = tag.attribute(EPG_ATTRIB_ID@)->0;
            assert(after.cache.normalized[name] == Some(id));
            assert(ids(after.channels).contains(id));
        }
    }
}

/// Where channels are not matched by name, what is read depends on which ids are wanted and on
/// nothing else that is known of the channels: guides that were read before make no difference.
pub proof fn law_guides_do_not_affect_each_other(
    cache: SpecCache,
    other: SpecCache,
    tags: Seq<SpecTag>,
    fuzzy_matching: bool,
)
    requires
        cache.channel_epg_id == other.channel_epg_id,
    ensures
        guide_of_tags(cache, tags, false, fuzzy_matching).channels == guide_of_tags(
            other,
            tags,
            false,
            fuzzy_matching,
        ).channels,
        guide_of_tags(cache, tags, false, fuzzy_matching).attributes == guide_of_tags(
            other,
            tags,
            false,
            fuzzy_matching,
        ).attributes,
    decreases tags.len(),
{
    if tags.len() > 0 {
        let shorter = tags.drop_last();
        law_guides_do_not_affect_each_other(cache, other, shorter, fuzzy_matching);
        law_channels_by_id(cache, shorter, fuzzy_matching, Seq::empty());
        law_channels_by_id(other, shorter, fuzzy_matching, Seq::empty());
    }
}

} // verus!
