//! Filling a guide with the tags of a document.
use crate::cache::{EpgIdCache, SpecCache};
use crate::channels::{with_channel, with_metadata, with_programme, ChannelTable};
use crate::epg_merge::has_id;
use crate::fuzzy::matched_key;
use crate::model::{
    view_option, views, Attributes, Epg, EpgProgramme, PersistedEpgSource, SpecChannel, SpecEpg,
    SpecProgramme, TVGuide,
};
use crate::normalize::{normalize_channel_name, normalized_name, SpecSmartMatch};
use crate::tag::{
    lemma_tag_names_differ, lemma_tag_views, SpecIcon, SpecTag, XmlTag, XmlTagIcon,
    EPG_ATTRIB_CHANNEL, EPG_ATTRIB_ID, EPG_ATTRIB_SRC, EPG_ATTRIB_START, EPG_ATTRIB_STOP,
    EPG_TAG_CHANNEL, EPG_TAG_DESC, EPG_TAG_DISPLAY_NAME, EPG_TAG_ICON, EPG_TAG_PROGRAMME,
    EPG_TAG_TITLE, EPG_TAG_TV,
};
use crate::time::{parse_xmltv_time, xmltv_seconds};
use crate::xmltv::{document_tags, parse_tvguide};
use vstd::prelude::*;

verus! {

/// The texts of the names of a channel, each normalized.
pub open spec fn normalized_display_names(
    children: Seq<SpecTag>,
    config: SpecSmartMatch,
) -> Seq<Seq<char>>
    decreases children.len(),
{
    if children.len() == 0 {
        Seq::empty()
    } else {
        let earlier = normalized_display_names(children.drop_last(), config);
        let child = children.last();
        if child.name == EPG_TAG_DISPLAY_NAME@ && child.value is Some {
            earlier.push(normalized_name(child.value->0, config))
        } else {
            earlier
        }
    }
}

/// The source of the last icon that has one.
pub open spec fn last_icon(children: Seq<SpecTag>) -> SpecIcon
    decreases children.len(),
{
    if children.len() == 0 {
        None
    } else {
        let child = children.last();
        if child.name == EPG_TAG_ICON@ && child.has_text(EPG_ATTRIB_SRC@) {
            child.attribute(EPG_ATTRIB_SRC@)
        } else {
            last_icon(children.drop_last())
        }
    }
}

/// Normalized ids with more ids behind them. A list that is missing stays so if nothing is added.
pub open spec fn with_ids(ids: Option<Seq<Seq<char>>>, added: Seq<Seq<char>>) -> Option<
    Seq<Seq<char>>,
> {
    match ids {
        Some(known) => Some(known + added),
        None => if added.len() == 0 {
            None
        } else {
            Some(added)
        },
    }
}

/// A channel tag with its normalized id, its normalized names if channels are matched by name,
/// and its icon.
pub open spec fn prepared_tag(tag: SpecTag, config: SpecSmartMatch, smart_match: bool) -> SpecTag {
    let own: Seq<Seq<char>> = match tag.attribute(EPG_ATTRIB_ID@) {
        Some(id) => seq![normalized_name(id, config)],
        None => Seq::empty(),
    };
    let names = if smart_match {
        normalized_display_names(tag.child_tags(), config)
    } else {
        Seq::empty()
    };
    SpecTag {
        normalized_epg_ids: with_ids(tag.normalized_epg_ids, own + names),
        icon: match last_icon(tag.child_tags()) {
            Some(source) => Some(source),
            None => tag.icon,
        },
        ..tag
    }
}

/// The value of the first child with this name.
pub open spec fn first_value(children: Seq<SpecTag>, name: Seq<char>) -> Option<Seq<char>>
    decreases children.len(),
{
    if children.len() == 0 {
        None
    } else if children[0].name == name {
        children[0].value
    } else {
        first_value(children.skip(1), name)
    }
}

/// The value of the last child with this name.
pub open spec fn last_value(children: Seq<SpecTag>, name: Seq<char>) -> Option<Seq<char>>
    decreases children.len(),
{
    if children.len() == 0 {
        None
    } else if children.last().name == name {
        children.last().value
    } else {
        last_value(children.drop_last(), name)
    }
}

/// Whether and with what effect on the cache a channel is wanted: by name if channels are matched
/// by name, otherwise by its id.
pub open spec fn wanted_channel(
    cache: SpecCache,
    id: Seq<char>,
    names: Seq<Seq<char>>,
    smart_match: bool,
    fuzzy_matching: bool,
) -> Option<SpecCache> {
    if smart_match {
        match matched_key(cache, names, fuzzy_matching) {
            Some(key) => Some(cache.matching(key, id)),
            None => None,
        }
    } else if cache.channel_epg_id.contains(id) {
        Some(cache)
    } else {
        None
    }
}

/// The cache after a guide had a channel with this id.
pub open spec fn with_processed(cache: SpecCache, id: Seq<char>) -> SpecCache {
    SpecCache { processed: cache.processed.insert(id), ..cache }
}

/// The cache and the channels after a channel tag. A channel that is wanted is added, or
/// completed if there is one with its id.
pub open spec fn channel_added(
    cache: SpecCache,
    channels: Seq<SpecChannel>,
    tag: SpecTag,
    smart_match: bool,
    fuzzy_matching: bool,
) -> (SpecCache, Seq<SpecChannel>) {
    if !tag.has_text(EPG_ATTRIB_ID@) {
        (cache, channels)
    } else {
        let id = tag.attribute(EPG_ATTRIB_ID@)->0;
        let prepared = prepared_tag(tag, cache.smart_match_config, smart_match);
        let names = prepared.ids();
        let title = first_value(tag.child_tags(), EPG_TAG_DISPLAY_NAME@);
        match wanted_channel(cache, id, names, smart_match, fuzzy_matching) {
            Some(matched) => (
                with_processed(matched, id),
                if has_id(channels, id) {
                    with_metadata(channels, id, title, prepared.icon)
                } else {
                    with_channel(channels, id, title, prepared.icon)
                },
            ),
            None => (cache, channels),
        }
    }
}

/// The programme that a tag describes, if both its times are known.
pub open spec fn programme_with_times(
    tag: SpecTag,
    id: Seq<char>,
    start: Option<i64>,
    stop: Option<i64>,
) -> Option<SpecProgramme> {
    match (start, stop) {
        (Some(start_time), Some(stop_time)) => Some(
            SpecProgramme {
                start: start_time,
                stop: stop_time,
                channel: id,
                title: last_value(tag.child_tags(), EPG_TAG_TITLE@),
                desc: last_value(tag.child_tags(), EPG_TAG_DESC@),
            },
        ),
        _ => None,
    }
}

/// The programme that a tag describes, if its times can be read.
pub open spec fn programme_of_tag(tag: SpecTag, id: Seq<char>) -> Option<SpecProgramme> {
    match (tag.attribute(EPG_ATTRIB_START@), tag.attribute(EPG_ATTRIB_STOP@)) {
        (Some(start), Some(stop)) => programme_with_times(
            tag,
            id,
            xmltv_seconds(start),
            xmltv_seconds(stop),
        ),
        _ => None,
    }
}

/// The channels after a programme tag. A programme of a channel that is not there counts for
/// nothing.
pub open spec fn programme_added(channels: Seq<SpecChannel>, tag: SpecTag) -> Seq<SpecChannel> {
    match tag.attribute(EPG_ATTRIB_CHANNEL@) {
        Some(id) => match programme_of_tag(tag, id) {
            Some(programme) => if has_id(channels, id) {
                with_programme(channels, id, programme)
            } else {
                channels
            },
            None => channels,
        },
        None => channels,
    }
}

/// A guide that is being filled: what is known of the wanted channels, the channels so far, and
/// the attributes of the root.
pub struct SpecGuide {
    pub cache: SpecCache,
    pub channels: Seq<SpecChannel>,
    pub attributes: Option<Map<Seq<char>, Seq<char>>>,
}

/// A guide after a tag.
pub open spec fn tag_added(
    guide: SpecGuide,
    tag: SpecTag,
    smart_match: bool,
    fuzzy_matching: bool,
) -> SpecGuide {
    if tag.name == EPG_TAG_CHANNEL@ {
        let (cache, channels) = channel_added(
            guide.cache,
            guide.channels,
            tag,
            smart_match,
            fuzzy_matching,
        );
        SpecGuide { cache, channels, ..guide }
    } else if tag.name == EPG_TAG_PROGRAMME@ {
        SpecGuide { channels: programme_added(guide.channels, tag), ..guide }
    } else if tag.name == EPG_TAG_TV@ {
        SpecGuide { attributes: tag.attributes, ..guide }
    } else {
        guide
    }
}

/// The guide that tags make, one after the other.
pub open spec fn guide_of_tags(
    cache: SpecCache,
    tags: Seq<SpecTag>,
    smart_match: bool,
    fuzzy_matching: bool,
) -> SpecGuide
    decreases tags.len(),
{
    if tags.len() == 0 {
        SpecGuide { cache, channels: Seq::empty(), attributes: None }
    } else {
        tag_added(
            guide_of_tags(cache, tags.drop_last(), smart_match, fuzzy_matching),
            tags.last(),
            smart_match,
            fuzzy_matching,
        )
    }
}

/// The guide that a document makes.
pub open spec fn guide_of_document(cache: SpecCache, content: Seq<u8>) -> SpecGuide {
    let config = cache.smart_match_config;
    guide_of_tags(
        cache,
        document_tags(content),
        config.enabled,
        config.enabled && config.fuzzy_matching,
    )
}

/// The guide of a source, if it has a channel at all.
pub open spec fn epg_of_guide(guide: SpecGuide, priority: i16, logo_override: bool) -> Option<
    SpecEpg,
> {
    if guide.channels.len() == 0 {
        None
    } else {
        Some(
            SpecEpg {
                logo_override,
                priority,
                attributes: guide.attributes,
                children: guide.channels,
            },
        )
    }
}

/// A copy of a text that may be missing.
pub(crate) fn copy_option(text: &Option<String>) -> (copy: Option<String>)
    ensures
        view_option(copy) == view_option(*text),
{
    match text {
        Some(value) => Some(value.clone()),
        None => None,
    }
}

proof fn lemma_with_one_more_id(
    ids: Option<Seq<Seq<char>>>,
    added: Seq<Seq<char>>,
    id: Seq<char>,
)
    ensures
        with_ids(ids, added.push(id)) == Some(
            (match with_ids(ids, added) {
                Some(known) => known,
                None => Seq::empty(),
            }).push(id),
        ),
{
    if let Some(known) = ids {
        assert(known + added.push(id) =~= (known + added).push(id));
    } else if added.len() == 0 {
        assert(added.push(id) =~= Seq::<Seq<char>>::empty().push(id));
    }
}

impl TVGuide {
    /// Prepares a channel tag: see [`prepared_tag`].
    pub fn prepare_tag(id_cache: &EpgIdCache, tag: &mut XmlTag, smart_match: bool)
        ensures
            final(tag)@ == prepared_tag(old(tag)@, id_cache@.smart_match_config, smart_match),
            final(tag).normalized_epg_ids is None <==> (old(tag).normalized_epg_ids is None
                && final(tag)@.ids().len() == 0),
    {
        let ghost config = id_cache@.smart_match_config;
        let ghost start = tag@;
        let own = match tag.get_attribute_value(EPG_ATTRIB_ID) {
            Some(id) => Some(normalize_channel_name(id.as_str(), &id_cache.smart_match_config)),
            None => None,
        };
        if let Some(id) = own {
            tag.add_normalized_id(id);
        }
        let ghost first: Seq<Seq<char>> = match start.attribute(EPG_ATTRIB_ID@) {
            Some(id) => seq![normalized_name(id, config)],
            None => Seq::empty(),
        };
        assert(with_ids(start.normalized_epg_ids, Seq::empty()) == start.normalized_epg_ids) by {
            assert(start.ids() + Seq::<Seq<char>>::empty() =~= start.ids());
        }
        assert(tag@.normalized_epg_ids == with_ids(start.normalized_epg_ids, first)) by {
            if first.len() > 0 {
                assert(start.ids().push(first[0]) =~= start.ids() + first);
                assert(Seq::<Seq<char>>::empty() + first =~= first);
            }
        }
        assert(first + Seq::<Seq<char>>::empty() =~= first);
        if let Some(children) = tag.children.take() {
            let ghost all = views(children@);
            proof {
                lemma_tag_views(children@);
            }
            let mut icon: Option<String> = None;
            assert(normalized_display_names(all.take(0), config) =~= Seq::empty());
            for i in 0..children.len()
                invariant
                    all == views(children@),
                    tag.children is None,
                    config == id_cache@.smart_match_config,
                    view_option(icon) == last_icon(all.take(i as int)),
                    tag@ == (SpecTag {
                        children: None,
                        normalized_epg_ids: with_ids(
                            start.normalized_epg_ids,
                            if smart_match {
                                first + normalized_display_names(all.take(i as int), config)
                            } else {
                                first
                            },
                        ),
                        ..start
                    }),
            {
                let child = &children[i];
                proof {
                    assert(all.take(i + 1).drop_last() =~= all.take(i as int));
                    assert(all.take(i + 1).last() == child@);
                    reveal_strlit("display-name");
                    reveal_strlit("icon");
                    assert(EPG_TAG_DISPLAY_NAME@.len() != EPG_TAG_ICON@.len());
                }
                if child.is_named(EPG_TAG_DISPLAY_NAME) {
                    if smart_match {
                        if let Some(name) = &child.value {
                            let id = normalize_channel_name(
                                name.as_str(),
                                &id_cache.smart_match_config,
                            );
                            let ghost added = first + normalized_display_names(
                                all.take(i as int),
                                config,
                            );
                            tag.add_normalized_id(id);
                            proof {
                                lemma_with_one_more_id(start.normalized_epg_ids, added, id@);
                                assert(added.push(id@) =~= first + normalized_display_names(
                                    all.take(i + 1),
                                    config,
                                ));
                            }
                        }
                    }
                } else if child.is_named(EPG_TAG_ICON) {
                    if let Some(source) = child.get_attribute_value(EPG_ATTRIB_SRC) {
                        if !source.as_str().is_empty() {
                            icon = Some(source.clone());
                        }
                    }
                }
            }
            assert(all.take(all.len() as int) =~= all);
            assert(start.child_tags() =~= all);
            tag.children = Some(children);
            if let Some(source) = icon {
                tag.icon = XmlTagIcon::Src(source);
            }
        } else {
            assert(start.child_tags() =~= Seq::empty());
        }
    }

    /// The first name of a channel.
    pub fn channel_display_name(tag: &XmlTag) -> (name: Option<String>)
        ensures
            view_option(name) == first_value(tag@.child_tags(), EPG_TAG_DISPLAY_NAME@),
    {
        if let Some(children) = &tag.children {
            proof {
                lemma_tag_views(children@);
            }
            let ghost all = views(children@);
            assert(all.skip(0) =~= all);
            for i in 0..children.len()
                invariant
                    all == views(children@),
                    all == tag@.child_tags(),
                    first_value(all, EPG_TAG_DISPLAY_NAME@) == first_value(
                        all.skip(i as int),
                        EPG_TAG_DISPLAY_NAME@,
                    ),
            {
                assert(all.skip(i as int)[0] == children@[i as int]@);
                assert(all.skip(i as int).skip(1) =~= all.skip(i + 1));
                if children[i].is_named(EPG_TAG_DISPLAY_NAME) {
                    return copy_option(&children[i].value);
                }
            }
        }
        None
    }

    /// The icon of a channel.
    pub fn channel_icon(tag: &XmlTag) -> (icon: Option<String>)
        ensures
            view_option(icon) == tag@.icon,
    {
        match &tag.icon {
            XmlTagIcon::Src(source) => Some(source.clone()),
            XmlTagIcon::Undefined => None,
        }
    }

    /// Takes over a channel tag: see [`channel_added`].
    pub fn add_channel_tag(
        id_cache: &mut EpgIdCache,
        children: &mut ChannelTable,
        tag: &mut XmlTag,
        smart_match: bool,
        fuzzy_matching: bool,
    )
        requires
            old(children).well_formed(),
        ensures
            final(children).well_formed(),
            (final(id_cache)@, final(children)@) == channel_added(
                old(id_cache)@,
                old(children)@,
                old(tag)@,
                smart_match,
                fuzzy_matching,
            ),
            final(tag)@ == if old(tag)@.has_text(EPG_ATTRIB_ID@) {
                prepared_tag(old(tag)@, old(id_cache)@.smart_match_config, smart_match)
            } else {
                old(tag)@
            },
    {
        let tag_epg_id = match tag.get_attribute_value(EPG_ATTRIB_ID) {
            Some(id) => id.clone(),
            None => {
                return;
            },
        };
        if tag_epg_id.as_str().is_empty() {
            return;
        }
        Self::prepare_tag(id_cache, tag, smart_match);
        let add_channel = if smart_match {
            Self::try_fuzzy_matching(id_cache, tag_epg_id.as_str(), tag, fuzzy_matching)
        } else {
            id_cache.channel_epg_id.contains(tag_epg_id.as_str())
        };
        if !add_channel {
            return;
        }
        let title = Self::channel_display_name(tag);
        let icon = Self::channel_icon(tag);
        if children.contains(tag_epg_id.as_str()) {
            children.complete(tag_epg_id.as_str(), title, icon);
        } else {
            children.add(tag_epg_id.clone(), title, icon);
        }
        let ghost matched = id_cache@;
        id_cache.processed.insert(tag_epg_id);
        assert(id_cache@ =~= with_processed(matched, tag_epg_id@));
    }

    /// The values of the last title and the last description of a programme.
    fn programme_texts(tag: &XmlTag) -> (texts: (Option<String>, Option<String>))
        ensures
            view_option(texts.0) == last_value(tag@.child_tags(), EPG_TAG_TITLE@),
            view_option(texts.1) == last_value(tag@.child_tags(), EPG_TAG_DESC@),
    {
        let mut title: Option<String> = None;
        let mut desc: Option<String> = None;
        if let Some(children) = &tag.children {
            proof {
                lemma_tag_views(children@);
            }
            let ghost all = views(children@);
            for i in 0..children.len()
                invariant
                    all == views(children@),
                    view_option(title) == last_value(all.take(i as int), EPG_TAG_TITLE@),
                    view_option(desc) == last_value(all.take(i as int), EPG_TAG_DESC@),
            {
                let child = &children[i];
                proof {
                    assert(all.take(i + 1).drop_last() =~= all.take(i as int));
                    assert(all.take(i + 1).last() == child@);
                    reveal_strlit("title");
                    reveal_strlit("desc");
                    assert(EPG_TAG_TITLE@.len() != EPG_TAG_DESC@.len());
                }
                if child.is_named(EPG_TAG_TITLE) {
                    title = copy_option(&child.value);
                } else if child.is_named(EPG_TAG_DESC) {
                    desc = copy_option(&child.value);
                }
            }
            assert(all.take(all.len() as int) =~= all);
        }
        (title, desc)
    }

    /// The programme that a tag describes, if both its times are known.
    pub fn build_programme(
        tag: &XmlTag,
        epg_id: &str,
        start: Option<i64>,
        stop: Option<i64>,
    ) -> (programme: Option<EpgProgramme>)
        ensures
            view_option(programme) == programme_with_times(tag@, epg_id@, start, stop),
    {
        match (start, stop) {
            (Some(start_time), Some(stop_time)) => {
                let (title, desc) = Self::programme_texts(tag);
                Some(EpgProgramme::new_all(start_time, stop_time, epg_id.to_owned(), title, desc))
            },
            _ => None,
        }
    }

    /// Takes over a programme tag of the channel `epg_id`, if its times can be read.
    pub fn add_programme_tag(children: &mut ChannelTable, tag: &XmlTag, epg_id: &str)
        requires
            old(children).well_formed(),
        ensures
            final(children).well_formed(),
            final(children)@ == match programme_of_tag(tag@, epg_id@) {
                Some(programme) => if has_id(old(children)@, epg_id@) {
                    with_programme(old(children)@, epg_id@, programme)
                } else {
                    old(children)@
                },
                None => old(children)@,
            },
    {
        if !children.contains(epg_id) {
            return;
        }
        let (start, stop) = match (
            tag.get_attribute_value(EPG_ATTRIB_START),
            tag.get_attribute_value(EPG_ATTRIB_STOP),
        ) {
            (Some(start), Some(stop)) => (start, stop),
            _ => {
                return;
            },
        };
        if let Some(programme) = Self::build_programme(
            tag,
            epg_id,
            parse_xmltv_time(start.as_str()),
            parse_xmltv_time(stop.as_str()),
        ) {
            children.add_programme(epg_id, programme);
        }
    }

    /// Fills a guide with tags: see [`guide_of_tags`].
    pub fn collect_tags(
        id_cache: &mut EpgIdCache,
        tags: Vec<XmlTag>,
        smart_match: bool,
        fuzzy_matching: bool,
    ) -> (guide: (ChannelTable, Option<Attributes>))
        ensures
            guide.0.well_formed(),
            (SpecGuide {
                cache: final(id_cache)@,
                channels: guide.0@,
                attributes: view_option(guide.1),
            }) == guide_of_tags(old(id_cache)@, views(tags@), smart_match, fuzzy_matching),
    {
        let mut children = ChannelTable::new();
        let mut tv_attributes: Option<Attributes> = None;
        let ghost all = views(tags@);
        let ghost start = id_cache@;
        for each in it: tags
            invariant
                children.well_formed(),
                all == views(it.seq()),
                (SpecGuide {
                    cache: id_cache@,
                    channels: children@,
                    attributes: view_option(tv_attributes),
                }) == guide_of_tags(start, all.take(it.index()), smart_match, fuzzy_matching),
        {
            let mut tag = each;
            proof {
                assert(all.take(it.index() + 1).drop_last() =~= all.take(it.index()));
                assert(all.take(it.index() + 1).last() == tag@);
                lemma_tag_names_differ();
            }
            if tag.is_named(EPG_TAG_CHANNEL) {
                Self::add_channel_tag(
                    id_cache,
                    &mut children,
                    &mut tag,
                    smart_match,
                    fuzzy_matching,
                );
            } else if tag.is_named(EPG_TAG_PROGRAMME) {
                if let Some(epg_id) = tag.get_attribute_value(EPG_ATTRIB_CHANNEL) {
                    Self::add_programme_tag(&mut children, &tag, epg_id.as_str());
                }
            } else if tag.is_named(EPG_TAG_TV) {
                tv_attributes = tag.attributes;
            }
        }
        assert(all.take(all.len() as int) =~= all);
        (children, tv_attributes)
    }

    /// Reads the guide of a source out of the content of its file, and notes in the cache which
    /// channels were found. There is no guide without a wanted channel.
    pub fn process_epg_file(
        id_cache: &mut EpgIdCache,
        epg_source: &PersistedEpgSource,
        content: &[u8],
    ) -> (epg: Option<Epg>)
        ensures
            final(id_cache)@ == guide_of_document(old(id_cache)@, content@).cache,
            view_option(epg) == epg_of_guide(
                guide_of_document(old(id_cache)@, content@),
                epg_source.priority,
                epg_source.logo_override,
            ),
    {
        let smart_match = id_cache.smart_match_config.enabled;
        let fuzzy_matching = smart_match && id_cache.smart_match_config.fuzzy_matching;
        let tags = parse_tvguide(content);
        let (children, attributes) = Self::collect_tags(
            id_cache,
            tags,
            smart_match,
            fuzzy_matching,
        );
        if children.is_empty() {
            return None;
        }
        Some(
            Epg {
                logo_override: epg_source.logo_override,
                priority: epg_source.priority,
                attributes,
                children: children.into_channels(),
            },
        )
    }
}

} // verus!
