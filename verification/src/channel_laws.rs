//! What holds of the channels of a guide.
use crate::cache::SpecCache;
use crate::epg_merge::has_id;
use crate::fuzzy::matched_key;
use crate::guide::{
    channel_added, epg_of_guide, first_value, guide_of_document, guide_of_tags, last_icon,
    normalized_display_names, prepared_tag, programme_added, tag_added, wanted_channel, SpecGuide,
};
use crate::model::SpecChannel;
use crate::normalize::{normalized_name, SpecSmartMatch};
use crate::tag::{lemma_tag_names_differ, SpecTag};
use crate::xmltv::document_tags;
use vstd::prelude::*;

verus! {

/// Whether a tag is an icon that has a source.
pub open spec fn is_icon(tag: SpecTag) -> bool {
    tag.name == "icon"@ && tag.attribute("src"@) is Some && tag.attribute("src"@)->0.len() > 0
}

/// The icon of a channel is the source of the last icon that has one.
pub proof fn law_last_icon_counts(children: Seq<SpecTag>, i: int)
    requires
        0 <= i < children.len(),
        is_icon(children[i]),
        forall|k: int| i < k < children.len() ==> !is_icon(#[trigger] children[k]),
    ensures
        last_icon(children) == children[i].attribute("src"@),
    decreases children.len(),
{
    if i < children.len() - 1 {
        let shorter = children.drop_last();
        assert(children.last() == children[children.len() - 1]);
        assert(!is_icon(children[children.len() - 1]));
        assert forall|k: int| i < k < shorter.len() implies !is_icon(#[trigger] shorter[k]) by {
            assert(shorter[k] == children[k]);
        }
        law_last_icon_counts(shorter, i);
    }
}

/// Without an icon that has a source there is none.
pub proof fn law_no_icon(children: Seq<SpecTag>)
    requires
        forall|k: int| 0 <= k < children.len() ==> !is_icon(#[trigger] children[k]),
    ensures
        last_icon(children) is None,
    decreases children.len(),
{
    if children.len() > 0 {
        let shorter = children.drop_last();
        assert(children.last() == children[children.len() - 1]);
        assert(!is_icon(children[children.len() - 1]));
        assert forall|k: int| 0 <= k < shorter.len() implies !is_icon(#[trigger] shorter[k]) by {
            assert(shorter[k] == children[k]);
        }
        law_no_icon(shorter);
    }
}

/// Each name of a channel that has a text counts, normalized; nothing else does. The names of more
/// children follow each other.
pub proof fn law_names_of_a_channel(
    child: SpecTag,
    first: Seq<SpecTag>,
    second: Seq<SpecTag>,
    config: SpecSmartMatch,
)
    ensures
        child.name == "display-name"@ && child.value is Some ==> normalized_display_names(
            seq![child],
            config,
        ) == seq![normalized_name(child.value->0, config)],
        child.name != "display-name"@ || child.value is None ==> normalized_display_names(
            seq![child],
            config,
        ).len() == 0,
        normalized_display_names(first + second, config) == normalized_display_names(first, config)
            + normalized_display_names(second, config),
    decreases second.len(),
{
    let one = seq![child];
    assert(one.drop_last() =~= Seq::<SpecTag>::empty());
    assert(one.last() == child);
    assert(normalized_display_names(one.drop_last(), config) =~= Seq::<Seq<char>>::empty());
    if child.name == "display-name"@ && child.value is Some {
        assert(normalized_display_names(one, config) =~= seq![
            normalized_name(child.value->0, config),
        ]);
    }
    if second.len() == 0 {
        assert(first + second =~= first);
        assert(normalized_display_names(first, config) + Seq::<Seq<char>>::empty()
            =~= normalized_display_names(first, config));
    } else {
        let shorter = second.drop_last();
        law_names_of_a_channel(child, first, shorter, config);
        assert((first + second).drop_last() =~= first + shorter);
        assert((first + second).last() == second.last());
        assert(normalized_display_names(first + second, config) =~= normalized_display_names(
            first,
            config,
        ) + normalized_display_names(second, config));
    }
}

/// A channel becomes known by its normalized id and, if channels are matched by name, by its
/// normalized names behind it, all behind what it was known by before. It has the icon of its
/// children, if there is one. The rest of it stays.
pub proof fn law_channel_is_prepared(tag: SpecTag, config: SpecSmartMatch, smart_match: bool)
    ensures
        ({
            let prepared = prepared_tag(tag, config, smart_match);
            let names = normalized_display_names(tag.child_tags(), config);
            let own = tag.attribute("id"@);
            let found = last_icon(tag.child_tags());
            &&& own is Some && smart_match ==> prepared.ids() == tag.ids().push(
                normalized_name(own->0, config),
            ) + names
            &&& own is Some && !smart_match ==> prepared.ids() == tag.ids().push(
                normalized_name(own->0, config),
            )
            &&& own is None && smart_match ==> prepared.ids() == tag.ids() + names
            &&& own is None && !smart_match ==> prepared.ids() == tag.ids()
            &&& prepared.normalized_epg_ids is None <==> tag.normalized_epg_ids is None
                && prepared.ids().len() == 0
            &&& found is Some ==> prepared.icon == found
            &&& found is None ==> prepared.icon == tag.icon
            &&& prepared.name == tag.name
            &&& prepared.value == tag.value
            &&& prepared.attributes == tag.attributes
            &&& prepared.children == tag.children
        }),
{
    let prepared = prepared_tag(tag, config, smart_match);
    let names = normalized_display_names(tag.child_tags(), config);
    if tag.attribute("id"@) is Some {
        let known = tag.ids().push(normalized_name(tag.attribute("id"@)->0, config));
        if smart_match {
            assert(prepared.ids() =~= known + names);
        } else {
            assert(prepared.ids() =~= known);
        }
    } else if smart_match {
        assert(prepared.ids() =~= tag.ids() + names);
    } else {
        assert(prepared.ids() =~= tag.ids());
    }
}

/// Where channels are not matched by name, a channel is wanted exactly if its id is, and what is
/// known does not change. Where they are, it is wanted exactly if a wanted name matches, and its id
/// is noted for that name.
pub proof fn law_which_channels_are_wanted(
    cache: SpecCache,
    id: Seq<char>,
    names: Seq<Seq<char>>,
    fuzzy_matching: bool,
)
    ensures
        cache.channel_epg_id.contains(id) ==> wanted_channel(
            cache,
            id,
            names,
            false,
            fuzzy_matching,
        ) == Some(cache),
        !cache.channel_epg_id.contains(id) ==> wanted_channel(
            cache,
            id,
            names,
            false,
            fuzzy_matching,
        ) is None,
        matched_key(cache, names, fuzzy_matching) is None ==> wanted_channel(
            cache,
            id,
            names,
            true,
            fuzzy_matching,
        ) is None,
        matched_key(cache, names, fuzzy_matching) is Some ==> wanted_channel(
            cache,
            id,
            names,
            true,
            fuzzy_matching,
        ) == Some(cache.matching(matched_key(cache, names, fuzzy_matching)->0, id)),
{
}

/// The cache that a channel with this id and these names leaves, if it is wanted.
pub open spec fn wanted_tag(
    cache: SpecCache,
    tag: SpecTag,
    smart_match: bool,
    fuzzy_matching: bool,
) -> Option<SpecCache> {
    wanted_channel(
        cache,
        tag.attribute("id"@)->0,
        prepared_tag(tag, cache.smart_match_config, smart_match).ids(),
        smart_match,
        fuzzy_matching,
    )
}

/// A wanted channel whose id no channel has yet is added behind the others, with the text of its
/// first name as title, with its icon and without programmes. Its id counts as processed.
pub proof fn law_new_channel_is_added(
    cache: SpecCache,
    channels: Seq<SpecChannel>,
    tag: SpecTag,
    smart_match: bool,
    fuzzy_matching: bool,
)
    requires
        tag.attribute("id"@) is Some,
        tag.attribute("id"@)->0.len() > 0,
        tag.icon is None,
        forall|i: int|
            0 <= i < channels.len() ==> Some((#[trigger] channels[i]).id) != tag.attribute("id"@),
        wanted_tag(cache, tag, smart_match, fuzzy_matching) is Some,
    ensures
        ({
            let (known, after) = channel_added(cache, channels, tag, smart_match, fuzzy_matching);
            let matched = wanted_tag(cache, tag, smart_match, fuzzy_matching)->0;
            let channel = after.last();
            &&& after.len() == channels.len() + 1
            &&& after.drop_last() == channels
            &&& Some(channel.id) == tag.attribute("id"@)
            &&& channel.title == first_value(tag.child_tags(), "display-name"@)
            &&& channel.icon == last_icon(tag.child_tags())
            &&& channel.programmes.len() == 0
            &&& known.processed == matched.processed.insert(channel.id)
            &&& known.channel_epg_id == matched.channel_epg_id
            &&& known.normalized == matched.normalized
            &&& known.phonetics == matched.phonetics
            &&& known.smart_match_config == matched.smart_match_config
        }),
{
    let id = tag.attribute("id"@)->0;
    assert(!has_id(channels, id));
    let after = channel_added(cache, channels, tag, smart_match, fuzzy_matching).1;
    assert(after.drop_last() =~= channels);
}

/// A wanted channel whose id a channel has already gives that one its title and its icon where it
/// has none. Nothing else of the channels changes.
pub proof fn law_known_channel_is_completed(
    cache: SpecCache,
    channels: Seq<SpecChannel>,
    tag: SpecTag,
    smart_match: bool,
    fuzzy_matching: bool,
    i: int,
)
    requires
        0 <= i < channels.len(),
        tag.attribute("id"@) == Some(channels[i].id),
        channels[i].id.len() > 0,
        tag.icon is None,
        wanted_tag(cache, tag, smart_match, fuzzy_matching) is Some,
    ensures
        ({
            let (known, after) = channel_added(cache, channels, tag, smart_match, fuzzy_matching);
            let matched = wanted_tag(cache, tag, smart_match, fuzzy_matching)->0;
            &&& after.len() == channels.len()
            &&& after[i].id == channels[i].id
            &&& after[i].programmes == channels[i].programmes
            &&& channels[i].title is Some ==> after[i].title == channels[i].title
            &&& channels[i].title is None ==> after[i].title == first_value(
                tag.child_tags(),
                "display-name"@,
            )
            &&& channels[i].icon is Some ==> after[i].icon == channels[i].icon
            &&& channels[i].icon is None ==> after[i].icon == last_icon(tag.child_tags())
            &&& forall|k: int|
                0 <= k < channels.len() && channels[k].id != channels[i].id ==> #[trigger] after[k]
                    == channels[k]
            &&& known.processed == matched.processed.insert(channels[i].id)
            &&& known.channel_epg_id == matched.channel_epg_id
            &&& known.normalized == matched.normalized
            &&& known.phonetics == matched.phonetics
            &&& known.smart_match_config == matched.smart_match_config
        }),
{
    assert(has_id(channels, channels[i].id));
}

/// A channel without an id, or one that is not wanted, changes nothing.
pub proof fn law_other_channels_change_nothing(
    cache: SpecCache,
    channels: Seq<SpecChannel>,
    tag: SpecTag,
    smart_match: bool,
    fuzzy_matching: bool,
)
    requires
        tag.attribute("id"@) is None || tag.attribute("id"@)->0.len() == 0 || wanted_tag(
            cache,
            tag,
            smart_match,
            fuzzy_matching,
        ) is None,
    ensures
        channel_added(cache, channels, tag, smart_match, fuzzy_matching) == (cache, channels),
{
}

/// A channel tag changes the channels and what is known of them, a programme tag the channels, and
/// the root the attributes, which are then those of the root. Any other tag changes nothing.
pub proof fn law_what_a_tag_changes(
    guide: SpecGuide,
    tag: SpecTag,
    smart_match: bool,
    fuzzy_matching: bool,
)
    ensures
        ({
            let after = tag_added(guide, tag, smart_match, fuzzy_matching);
            let channel = channel_added(
                guide.cache,
                guide.channels,
                tag,
                smart_match,
                fuzzy_matching,
            );
            &&& after.cache == if tag.name == "channel"@ {
                channel.0
            } else {
                guide.cache
            }
            &&& tag.name == "channel"@ ==> after.channels == channel.1
            &&& tag.name == "programme"@ ==> after.channels == programme_added(guide.channels, tag)
            &&& tag.name != "channel"@ && tag.name != "programme"@ ==> after.channels
                == guide.channels
            &&& after.attributes == if tag.name == "tv"@ {
                tag.attributes
            } else {
                guide.attributes
            }
        }),
{
    lemma_tag_names_differ();
}

/// A guide begins with no channels and no attributes, and the tags count in their order.
pub proof fn law_tags_count_in_their_order(
    cache: SpecCache,
    tags: Seq<SpecTag>,
    tag: SpecTag,
    smart_match: bool,
    fuzzy_matching: bool,
)
    ensures
        ({
            let empty = guide_of_tags(cache, Seq::empty(), smart_match, fuzzy_matching);
            &&& empty.cache == cache
            &&& empty.channels.len() == 0
            &&& empty.attributes is None
        }),
        guide_of_tags(cache, tags.push(tag), smart_match, fuzzy_matching) == tag_added(
            guide_of_tags(cache, tags, smart_match, fuzzy_matching),
            tag,
            smart_match,
            fuzzy_matching,
        ),
{
    assert(tags.push(tag).drop_last() =~= tags);
    assert(tags.push(tag).last() == tag);
}

/// The channels of a document are matched by name exactly if that is enabled, and by names that
/// sound alike exactly if that is enabled too.
pub proof fn law_how_a_document_is_read(cache: SpecCache, content: Seq<u8>)
    ensures
        !cache.smart_match_config.enabled ==> guide_of_document(cache, content) == guide_of_tags(
            cache,
            document_tags(content),
            false,
            false,
        ),
        cache.smart_match_config.enabled && !cache.smart_match_config.fuzzy_matching
            ==> guide_of_document(cache, content) == guide_of_tags(
            cache,
            document_tags(content),
            true,
            false,
        ),
        cache.smart_match_config.enabled && cache.smart_match_config.fuzzy_matching
            ==> guide_of_document(cache, content) == guide_of_tags(
            cache,
            document_tags(content),
            true,
            true,
        ),
{
}

/// A guide without a channel is none. Any other one keeps its channels and its attributes, and has
/// the priority and the logo setting of its source.
pub proof fn law_guide_of_a_source(guide: SpecGuide, priority: i16, logo_override: bool)
    ensures
        epg_of_guide(guide, priority, logo_override) is None <==> guide.channels.len() == 0,
        epg_of_guide(guide, priority, logo_override) matches Some(epg) ==> {
            &&& epg.children == guide.channels
            &&& epg.attributes == guide.attributes
            &&& epg.priority == priority
            &&& epg.logo_override == logo_override
        },
{
}

} // verus!
