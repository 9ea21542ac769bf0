//! What holds of the tags of every document.
use crate::external::{attribute_text, lossy_text, lowered};
use crate::tag::{
    lemma_tag_names_differ, tag_type, SpecTag, XmlTagType, EPG_ATTRIB_CHANNEL, EPG_ATTRIB_ID,
    EPG_TAG_CHANNEL, EPG_TAG_PROGRAMME,
};
use crate::xml::{SpecAttribute, SpecEvent, SpecStart};
use crate::xmltv::{
    attribute_entry, collected_attributes, is_handed_out, is_id_attribute, opened_tag, parsed,
    with_child, SpecParse,
};
use vstd::prelude::*;

verus! {

/// Every tag that is handed out is a root, a channel with an id, or a programme that names its
/// channel.
pub proof fn law_tags_that_are_handed_out(events: Seq<SpecEvent>, i: int)
    requires
        0 <= i < parsed(events).tags.len(),
    ensures
        tag_type(parsed(events).tags[i].name) is Tv || is_handed_out(parsed(events).tags[i]),
    decreases events.len(),
{
    let before = parsed(events.drop_last());
    if i < before.tags.len() {
        law_tags_that_are_handed_out(events.drop_last(), i);
    }
    match events.last() {
        SpecEvent::Start(start) => {
            assert(before.started(start).tags.len() <= before.tags.len() + 1);
        },
        SpecEvent::Empty(start) => {
            let opened = before.started(start);
            assert(opened.tags.len() <= before.tags.len() + 1);
            assert(opened.ended().tags.len() <= opened.tags.len() + 1);
        },
        _ => {},
    }
}

/// What was handed out stays handed out: more events only add tags.
pub proof fn law_tags_are_only_added(events: Seq<SpecEvent>, more: Seq<SpecEvent>)
    ensures
        parsed(events).tags.is_prefix_of(parsed(events + more).tags),
    decreases more.len(),
{
    if more.len() == 0 {
        assert(events + more =~= events);
    } else {
        let shorter = more.drop_last();
        law_tags_are_only_added(events, shorter);
        assert((events + more).drop_last() =~= events + shorter);
        assert((events + more).last() == more.last());
        let state = parsed(events + shorter);
        assert(state.tags.is_prefix_of(state.after(more.last()).tags)) by {
            match more.last() {
                SpecEvent::Empty(start) => {
                    let opened = state.started(start);
                    assert(state.tags.is_prefix_of(opened.tags));
                    assert(opened.tags.is_prefix_of(opened.ended().tags));
                },
                _ => {},
            }
        }
    }
}

/// How an event changes the number of open tags.
pub open spec fn level_change(event: SpecEvent) -> int {
    match event {
        SpecEvent::Start(_) => 1,
        SpecEvent::End => -1,
        _ => 0,
    }
}

/// How events change the number of open tags.
pub open spec fn level(events: Seq<SpecEvent>) -> int
    decreases events.len(),
{
    if events.len() == 0 {
        0
    } else {
        level(events.drop_last()) + level_change(events.last())
    }
}

/// Whether an event opens a root.
pub open spec fn opens_root(event: SpecEvent) -> bool {
    match event {
        SpecEvent::Start(start) => tag_type(opened_tag(start).name) is Tv,
        SpecEvent::Empty(start) => tag_type(opened_tag(start).name) is Tv,
        _ => false,
    }
}

/// Whether events stay inside the tag that is open before them: they close no more tags than
/// they open, and open no root.
pub open spec fn is_inside(events: Seq<SpecEvent>) -> bool {
    &&& forall|n: int| 0 <= n <= events.len() ==> level(#[trigger] events.take(n)) >= 0
    &&& forall|n: int| 0 <= n < events.len() ==> !opens_root(#[trigger] events[n])
}

/// What was read after more events.
pub open spec fn continued(state: SpecParse, events: Seq<SpecEvent>) -> SpecParse
    decreases events.len(),
{
    if events.len() == 0 {
        state
    } else {
        continued(state, events.drop_last()).after(events.last())
    }
}

/// What stands inside a tag changes nothing around it: the tags that were open stay open, in
/// their places; those around the innermost one stay as they are, and the innermost one keeps its
/// name and its attributes.
pub proof fn law_tags_around_stay(state: SpecParse, events: Seq<SpecEvent>)
    requires
        state.stack.len() > 0,
        is_inside(events),
    ensures
        continued(state, events).stack.len() == state.stack.len() + level(events),
        forall|k: int|
            0 <= k < state.stack.len() - 1 ==> #[trigger] continued(state, events).stack[k]
                == state.stack[k],
        continued(state, events).stack[state.stack.len() - 1].name == state.stack.last().name,
        continued(state, events).stack[state.stack.len() - 1].attributes
            == state.stack.last().attributes,
    decreases events.len(),
{
    assert(events.take(events.len() as int) =~= events);
    if events.len() > 0 {
        let shorter = events.drop_last();
        assert forall|n: int| 0 <= n <= shorter.len() implies level(#[trigger] shorter.take(n))
            >= 0 by {
            assert(shorter.take(n) =~= events.take(n));
        }
        assert forall|n: int| 0 <= n < shorter.len() implies !opens_root(#[trigger] shorter[n]) by {
            assert(shorter[n] == events[n]);
        }
        law_tags_around_stay(state, shorter);
        assert(level(events.take(events.len() as int)) >= 0);
        assert(shorter =~= events.take(events.len() - 1));
        assert(level(shorter) >= 0);
        assert(!opens_root(events[events.len() - 1]));
    }
}

/// Whether a tag that says which channel it is about says so in lower case.
pub open spec fn names_channel_in_lower_case(tag: SpecTag) -> bool {
    &&& tag.name == EPG_TAG_CHANNEL@ && tag.attribute(EPG_ATTRIB_ID@) is Some ==> is_lower_case(
        tag.attribute(EPG_ATTRIB_ID@)->0,
    )
    &&& tag.name == EPG_TAG_PROGRAMME@ && tag.attribute(EPG_ATTRIB_CHANNEL@) is Some
        ==> is_lower_case(tag.attribute(EPG_ATTRIB_CHANNEL@)->0)
}

/// Whether a text is the lower case of a text.
pub open spec fn is_lower_case(text: Seq<char>) -> bool {
    exists|original: Seq<char>| text == #[trigger] lowered(original)
}

proof fn lemma_id_attribute_is_lower_case(
    attributes: Seq<Option<SpecAttribute>>,
    kind: XmlTagType,
    key: Seq<char>,
)
    requires
        is_id_attribute(key, kind),
        collected_attributes(attributes, kind).contains_key(key),
    ensures
        is_lower_case(collected_attributes(attributes, kind)[key]),
    decreases attributes.len(),
{
    match attribute_entry(attributes.last(), kind) {
        Some((last_key, value)) => {
            if last_key != key {
                lemma_id_attribute_is_lower_case(attributes.drop_last(), kind, key);
            }
        },
        None => {
            lemma_id_attribute_is_lower_case(attributes.drop_last(), kind, key);
        },
    }
}

proof fn lemma_opened_tag_is_lower_case(start: SpecStart)
    ensures
        names_channel_in_lower_case(opened_tag(start)),
{
    lemma_tag_names_differ();
    let tag = opened_tag(start);
    let kind = tag_type(tag.name);
    if tag.name == EPG_TAG_CHANNEL@ && tag.attribute(EPG_ATTRIB_ID@) is Some {
        lemma_id_attribute_is_lower_case(start.attributes, kind, EPG_ATTRIB_ID@);
    }
    if tag.name == EPG_TAG_PROGRAMME@ && tag.attribute(EPG_ATTRIB_CHANNEL@) is Some {
        lemma_id_attribute_is_lower_case(start.attributes, kind, EPG_ATTRIB_CHANNEL@);
    }
}

/// Whether all open tags and all tags that were handed out name channels in lower case.
spec fn all_in_lower_case(state: SpecParse) -> bool {
    &&& forall|k: int|
        0 <= k < state.stack.len() ==> names_channel_in_lower_case(#[trigger] state.stack[k])
    &&& forall|k: int|
        0 <= k < state.tags.len() ==> names_channel_in_lower_case(#[trigger] state.tags[k])
}

proof fn lemma_ended_in_lower_case(state: SpecParse)
    requires
        all_in_lower_case(state),
    ensures
        all_in_lower_case(state.ended()),
{
    if state.stack.len() > 0 {
        let tag = state.stack[state.stack.len() - 1];
        let around = state.stack.drop_last();
        assert(names_channel_in_lower_case(tag));
        if around.len() > 0 {
            let parent = state.stack[state.stack.len() - 2];
            assert(names_channel_in_lower_case(parent));
            assert(around.last() == parent);
            assert(with_child(parent, tag).attribute(EPG_ATTRIB_ID@) == parent.attribute(
                EPG_ATTRIB_ID@,
            ));
            assert(names_channel_in_lower_case(with_child(parent, tag)));
        }
    }
}

proof fn lemma_parsed_in_lower_case(events: Seq<SpecEvent>)
    ensures
        all_in_lower_case(parsed(events)),
    decreases events.len(),
{
    if events.len() > 0 {
        let before = parsed(events.drop_last());
        lemma_parsed_in_lower_case(events.drop_last());
        match events.last() {
            SpecEvent::Start(start) => {
                lemma_opened_tag_is_lower_case(start);
            },
            SpecEvent::Empty(start) => {
                lemma_opened_tag_is_lower_case(start);
                assert(all_in_lower_case(before.started(start)));
                lemma_ended_in_lower_case(before.started(start));
            },
            SpecEvent::End => {
                lemma_ended_in_lower_case(before);
            },
            SpecEvent::Text(bytes) => {
                if before.stack.len() > 0 {
                    let tag = before.stack[before.stack.len() - 1];
                    assert(names_channel_in_lower_case(tag));
                }
            },
            _ => {},
        }
    }
}

/// Channels are named in lower case, in channels as well as in programmes, so that the case in
/// which a document writes an id does not matter.
pub proof fn law_channels_are_named_in_lower_case(events: Seq<SpecEvent>, i: int)
    requires
        0 <= i < parsed(events).tags.len(),
    ensures
        names_channel_in_lower_case(parsed(events).tags[i]),
{
    lemma_parsed_in_lower_case(events);
}

/// Whether an attribute does not set the one with this name.
pub open spec fn leaves_alone(
    attribute: Option<SpecAttribute>,
    kind: XmlTagType,
    key: Seq<char>,
) -> bool {
    match attribute_entry(attribute, kind) {
        Some((name, value)) => name != key,
        None => true,
    }
}

proof fn lemma_attribute_stays(
    attributes: Seq<Option<SpecAttribute>>,
    at: int,
    kind: XmlTagType,
    key: Seq<char>,
    value: Seq<char>,
)
    requires
        0 <= at < attributes.len(),
        attribute_entry(attributes[at], kind) == Some((key, value)),
        forall|k: int|
            at < k < attributes.len() ==> leaves_alone(#[trigger] attributes[k], kind, key),
    ensures
        collected_attributes(attributes, kind).contains_key(key),
        collected_attributes(attributes, kind)[key] == value,
    decreases attributes.len(),
{
    if at < attributes.len() - 1 {
        let shorter = attributes.drop_last();
        assert forall|k: int| at < k < shorter.len() implies leaves_alone(
            #[trigger] shorter[k],
            kind,
            key,
        ) by {
            assert(shorter[k] == attributes[k]);
        }
        assert(shorter[at] == attributes[at]);
        lemma_attribute_stays(shorter, at, kind, key, value);
        assert(leaves_alone(attributes[attributes.len() - 1], kind, key));
    }
}

/// A programme finds its channel whatever the letter case in which either tag writes the id: the
/// id of the channel and the channel of the programme are the same text if the two differ in case
/// only. (`i` and `j` are the places of the two attributes in their tags.)
pub proof fn law_case_of_ids_does_not_matter(
    channel: Seq<Option<SpecAttribute>>,
    i: int,
    id: Seq<char>,
    programme: Seq<Option<SpecAttribute>>,
    j: int,
    other: Seq<char>,
)
    requires
        0 <= i < channel.len(),
        channel[i] is Some,
        lossy_text(channel[i]->0.key) == EPG_ATTRIB_ID@,
        attribute_text(channel[i]->0.value) == Some(id),
        forall|k: int|
            i < k < channel.len() ==> leaves_alone(
                #[trigger] channel[k],
                XmlTagType::Channel,
                EPG_ATTRIB_ID@,
            ),
        0 <= j < programme.len(),
        programme[j] is Some,
        lossy_text(programme[j]->0.key) == EPG_ATTRIB_CHANNEL@,
        attribute_text(programme[j]->0.value) == Some(other),
        forall|k: int|
            j < k < programme.len() ==> leaves_alone(
                #[trigger] programme[k],
                XmlTagType::Programme,
                EPG_ATTRIB_CHANNEL@,
            ),
        id.len() > 0,
        other.len() > 0,
        lowered(id) == lowered(other),
    ensures
        collected_attributes(channel, XmlTagType::Channel).contains_key(EPG_ATTRIB_ID@),
        collected_attributes(programme, XmlTagType::Programme).contains_key(EPG_ATTRIB_CHANNEL@),
        collected_attributes(channel, XmlTagType::Channel)[EPG_ATTRIB_ID@] == collected_attributes(
            programme,
            XmlTagType::Programme,
        )[EPG_ATTRIB_CHANNEL@],
{
    lemma_attribute_stays(channel, i, XmlTagType::Channel, EPG_ATTRIB_ID@, lowered(id));
    lemma_attribute_stays(
        programme,
        j,
        XmlTagType::Programme,
        EPG_ATTRIB_CHANNEL@,
        lowered(other),
    );
}

} // verus!
