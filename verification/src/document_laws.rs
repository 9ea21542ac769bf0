//! What holds of the tags of a document, event by event.
use crate::external::{attribute_text, document_events, lossy_text, lowered};
use crate::tag::{lemma_tag_names_differ, tag_type, SpecTag, XmlTagType};
use crate::text::trimmed;
use crate::xml::{SpecAttribute, SpecEvent, SpecStart};
use crate::xmltv::{
    attribute_entry, collected_attributes, document_tags, mended_text, named_entry, opened_tag,
    parsed, SpecParse,
};
use crate::xmltv_laws::{continued, leaves_alone};
use vstd::prelude::*;
use vstd::utf8::{decode_utf8, valid_utf8};

verus! {

/// The kind of a tag is told by its name.
pub proof fn law_kinds_of_tags(name: Seq<char>)
    ensures
        tag_type(name) is Tv <==> name == "tv"@,
        tag_type(name) is Channel <==> name == "channel"@,
        tag_type(name) is Programme <==> name == "programme"@,
        tag_type(name) is Ignored <==> name != "tv"@ && name != "channel"@ && name
            != "programme"@,
{
    lemma_tag_names_differ();
}

/// An attribute counts exactly if it has a value that is not empty. The id of a channel and the
/// channel of a programme count in lower case, every other value as it stands.
pub proof fn law_value_of_an_attribute(key: Seq<char>, value: Option<Seq<char>>, kind: XmlTagType)
    ensures
        named_entry(key, value, kind) is Some <==> value is Some && value->0.len() > 0,
        named_entry(key, value, kind) matches Some((name, text)) ==> {
            &&& name == key
            &&& (kind is Channel && key == "id"@) || (kind is Programme && key == "channel"@)
                ==> text == lowered(value->0)
            &&& !((kind is Channel && key == "id"@) || (kind is Programme && key == "channel"@))
                ==> text == value->0
        },
{
}

/// A malformed attribute counts for nothing, any other one with its name and its value as they
/// read.
pub proof fn law_attribute_of_a_tag(raw: SpecAttribute, kind: XmlTagType)
    ensures
        attribute_entry(None, kind) is None,
        attribute_entry(Some(raw), kind) == named_entry(
            lossy_text(raw.key),
            attribute_text(raw.value),
            kind,
        ),
{
}

/// The attribute of a tag with some name is the last one that counts and has it.
pub proof fn law_last_attribute_counts(
    attributes: Seq<Option<SpecAttribute>>,
    kind: XmlTagType,
    key: Seq<char>,
    value: Seq<char>,
    i: int,
)
    requires
        0 <= i < attributes.len(),
        attribute_entry(attributes[i], kind) == Some((key, value)),
        forall|k: int|
            i < k < attributes.len() ==> leaves_alone(#[trigger] attributes[k], kind, key),
    ensures
        collected_attributes(attributes, kind).contains_key(key),
        collected_attributes(attributes, kind)[key] == value,
    decreases attributes.len(),
{
    if i < attributes.len() - 1 {
        let shorter = attributes.drop_last();
        assert forall|k: int| i < k < shorter.len() implies leaves_alone(
            #[trigger] shorter[k],
            kind,
            key,
        ) by {
            assert(shorter[k] == attributes[k]);
        }
        assert(shorter[i] == attributes[i]);
        law_last_attribute_counts(shorter, kind, key, value, i);
        assert(leaves_alone(attributes[attributes.len() - 1], kind, key));
    }
}

/// A tag has no attribute with a name that none of its attributes sets.
pub proof fn law_no_attribute_is_made_up(
    attributes: Seq<Option<SpecAttribute>>,
    kind: XmlTagType,
    key: Seq<char>,
)
    requires
        forall|k: int|
            0 <= k < attributes.len() ==> leaves_alone(#[trigger] attributes[k], kind, key),
    ensures
        !collected_attributes(attributes, kind).contains_key(key),
    decreases attributes.len(),
{
    if attributes.len() > 0 {
        let shorter = attributes.drop_last();
        assert forall|k: int| 0 <= k < shorter.len() implies leaves_alone(
            #[trigger] shorter[k],
            kind,
            key,
        ) by {
            assert(shorter[k] == attributes[k]);
        }
        law_no_attribute_is_made_up(shorter, kind, key);
        assert(leaves_alone(attributes[attributes.len() - 1], kind, key));
    }
}

/// A tag that is opened has its name and its attributes, and holds nothing yet.
pub proof fn law_opened_tag(start: SpecStart, key: Seq<char>)
    ensures
        ({
            let tag = opened_tag(start);
            let attributes = collected_attributes(
                start.attributes,
                tag_type(lossy_text(start.name)),
            );
            &&& tag.name == lossy_text(start.name)
            &&& attributes.contains_key(key) ==> tag.attribute(key) == Some(attributes[key])
            &&& !attributes.contains_key(key) ==> tag.attribute(key) is None
            &&& tag.value is None
            &&& tag.child_tags().len() == 0
            &&& tag.icon is None
            &&& tag.normalized_epg_ids is None
        }),
{
}

/// The root is handed out when it starts, and any other tag is open then. Nothing else changes.
pub proof fn law_start_of_a_tag(state: SpecParse, start: SpecStart)
    ensures
        ({
            let after = state.after(SpecEvent::Start(start));
            let tag = opened_tag(start);
            &&& tag.name == "tv"@ ==> after.tags == state.tags.push(tag) && after.stack
                == state.stack
            &&& tag.name != "tv"@ ==> after.stack == state.stack.push(tag) && after.tags
                == state.tags
        }),
{
    lemma_tag_names_differ();
}

/// A channel with an id and a programme with a channel are handed out as they are when they end.
pub proof fn law_end_of_a_channel_or_programme(state: SpecParse)
    requires
        state.stack.len() > 0,
        state.stack.last().name == "channel"@ || state.stack.last().name == "programme"@,
    ensures
        ({
            let after = state.after(SpecEvent::End);
            let tag = state.stack.last();
            let named = if tag.name == "channel"@ {
                tag.attribute("id"@)
            } else {
                tag.attribute("channel"@)
            };
            &&& after.stack == state.stack.drop_last()
            &&& named is Some && named->0.len() > 0 ==> after.tags == state.tags.push(tag)
            &&& named is None || named->0.len() == 0 ==> after.tags == state.tags
        }),
{
    lemma_tag_names_differ();
}

/// Any other tag becomes the last child of the tag around it when it ends, if there is one. Of the
/// tag around it nothing else changes.
pub proof fn law_end_of_another_tag(state: SpecParse)
    requires
        state.stack.len() > 0,
        state.stack.last().name != "channel"@,
        state.stack.last().name != "programme"@,
    ensures
        ({
            let after = state.after(SpecEvent::End);
            let tag = state.stack.last();
            &&& after.tags == state.tags
            &&& after.stack.len() == state.stack.len() - 1
            &&& state.stack.len() > 1 ==> {
                let before = state.stack[state.stack.len() - 2];
                let parent = after.stack.last();
                &&& after.stack.drop_last() == state.stack.drop_last().drop_last()
                &&& parent.child_tags() == before.child_tags().push(tag)
                &&& parent.name == before.name
                &&& parent.value == before.value
                &&& parent.attributes == before.attributes
                &&& parent.icon == before.icon
                &&& parent.normalized_epg_ids == before.normalized_epg_ids
            }
        }),
{
    let after = state.after(SpecEvent::End);
    if state.stack.len() > 1 {
        assert(after.stack.drop_last() =~= state.stack.drop_last().drop_last());
    }
}

/// An end without an open tag changes nothing, and so does everything that is neither a tag nor a
/// text. A tag that is empty ends where it starts.
pub proof fn law_other_events(state: SpecParse, event: SpecEvent, start: SpecStart)
    ensures
        state.stack.len() == 0 ==> state.after(SpecEvent::End) == state,
        !(event is Start) && !(event is Empty) && !(event is End) && !(event is Text)
            ==> state.after(event) == state,
        state.after(SpecEvent::Empty(start)) == state.after(SpecEvent::Start(start)).after(
            SpecEvent::End,
        ),
{
}

/// What a text adds to a value: it is stripped of the white space around it, and a backslash at its
/// end is an escaped apostrophe.
pub proof fn law_text_is_mended(text: Seq<char>)
    ensures
        mended_text(text.push('\\')) == text + "&apos; "@,
        text.len() == 0 || text.last() != '\\' ==> mended_text(text) == text,
{
    assert(text.push('\\').drop_last() =~= text);
}

/// A text is added behind the value of the innermost open tag, unless it is blank or is not UTF-8.
/// Nothing else changes.
pub proof fn law_text_is_added(state: SpecParse, bytes: Seq<u8>)
    ensures
        ({
            let after = state.after(SpecEvent::Text(bytes));
            let text = trimmed(decode_utf8(bytes));
            let counts = state.stack.len() > 0 && valid_utf8(bytes) && text.len() > 0;
            &&& after.tags == state.tags
            &&& !counts ==> after.stack == state.stack
            &&& counts ==> {
                let before = state.stack.last();
                let tag = after.stack.last();
                &&& after.stack.len() == state.stack.len()
                &&& after.stack.drop_last() == state.stack.drop_last()
                &&& before.value is None ==> tag.value == Some(mended_text(text))
                &&& before.value is Some ==> tag.value == Some(
                    before.value->0 + mended_text(text),
                )
                &&& tag.name == before.name
                &&& tag.attributes == before.attributes
                &&& tag.children == before.children
                &&& tag.icon == before.icon
                &&& tag.normalized_epg_ids == before.normalized_epg_ids
            }
        }),
{
    let after = state.after(SpecEvent::Text(bytes));
    if state.stack.len() > 0 {
        assert(after.stack.drop_last() =~= state.stack.drop_last());
        assert(state.stack.drop_last().push(state.stack.last()) =~= state.stack);
    }
}

/// A document is read event by event, in order, beginning with nothing, and its tags are those that
/// were handed out in the end.
pub proof fn law_events_count_in_order(
    events: Seq<SpecEvent>,
    more: Seq<SpecEvent>,
    event: SpecEvent,
    content: Seq<u8>,
)
    ensures
        parsed(Seq::empty()).stack.len() == 0,
        parsed(Seq::empty()).tags.len() == 0,
        parsed(events.push(event)) == parsed(events).after(event),
        parsed(events + more) == continued(parsed(events), more),
        document_tags(content) == parsed(document_events(content)).tags,
    decreases more.len(),
{
    assert(events.push(event).drop_last() =~= events);
    if more.len() == 0 {
        assert(events + more =~= events);
    } else {
        law_events_count_in_order(events, more.drop_last(), event, content);
        assert((events + more).drop_last() =~= events + more.drop_last());
        assert((events + more).last() == more.last());
    }
}

/// A tag with a text in a channel or programme becomes its last child, with its name, its
/// attributes and that text.
pub proof fn law_element_becomes_a_child(state: SpecParse, start: SpecStart, bytes: Seq<u8>)
    requires
        state.stack.len() > 0,
        opened_tag(start).name != "tv"@,
        opened_tag(start).name != "channel"@,
        opened_tag(start).name != "programme"@,
        valid_utf8(bytes),
        trimmed(decode_utf8(bytes)).len() > 0,
    ensures
        ({
            let after = state.after(SpecEvent::Start(start)).after(SpecEvent::Text(bytes)).after(
                SpecEvent::End,
            );
            let child = after.stack.last().child_tags().last();
            &&& after.tags == state.tags
            &&& after.stack.len() == state.stack.len()
            &&& after.stack.last().child_tags().drop_last() == state.stack.last().child_tags()
            &&& after.stack.last().name == state.stack.last().name
            &&& after.stack.last().attributes == state.stack.last().attributes
            &&& child.name == lossy_text(start.name)
            &&& child.attributes == opened_tag(start).attributes
            &&& child.value == Some(mended_text(trimmed(decode_utf8(bytes))))
        }),
{
    let opened = state.after(SpecEvent::Start(start));
    law_start_of_a_tag(state, start);
    law_opened_tag(start, Seq::empty());
    assert(opened.stack.last() == opened_tag(start));
    assert(opened.stack.drop_last() =~= state.stack);
    law_text_is_added(opened, bytes);
    let texted = opened.after(SpecEvent::Text(bytes));
    assert(texted.stack.drop_last() =~= state.stack);
    assert(texted.stack[texted.stack.len() - 2] == texted.stack.drop_last().last());
    law_end_of_another_tag(texted);
    let after = texted.after(SpecEvent::End);
    assert(after.stack.last().child_tags().drop_last() =~= state.stack.last().child_tags());
}

} // verus!
