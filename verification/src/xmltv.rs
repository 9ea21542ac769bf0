//! Reading the tags of a guide document.
use crate::external::{
    attribute_text, decode_text, document_events, events_left, lossy_text, lowered, next_event,
    open_document, text_lossy, unescape_value,
};
use crate::model::{view_option, views, Attributes};
use crate::tag::{
    get_tag_type, lemma_tag_names_differ, tag_type, SpecTag, XmlTag, XmlTagType, EPG_ATTRIB_CHANNEL, EPG_ATTRIB_ID,
    EPG_TAG_CHANNEL, EPG_TAG_PROGRAMME,
};
use crate::text::{from_chars, same_text, to_chars, trim, trimmed};
use crate::xml::{attribute_view, RawAttribute, SpecAttribute, SpecEvent, SpecStart, StartTag, XmlEvent};
use vstd::prelude::*;
use vstd::string::*;
use vstd::utf8::{decode_utf8, valid_utf8};

verus! {

/// What stands in the place of a backslash at the end of a text.
pub const ESCAPED_APOSTROPHE: &'static str = "&apos; ";

/// Whether an attribute holds the id of a channel, which is compared in lower case.
pub open spec fn is_id_attribute(key: Seq<char>, kind: XmlTagType) -> bool {
    (kind is Channel && key == EPG_ATTRIB_ID@) || (kind is Programme && key == EPG_ATTRIB_CHANNEL@)
}

/// The name and the value of an attribute. One without a value, or with an empty one, counts for
/// nothing.
pub open spec fn named_entry(
    key: Seq<char>,
    value: Option<Seq<char>>,
    kind: XmlTagType,
) -> Option<(Seq<char>, Seq<char>)> {
    match value {
        None => None,
        Some(text) => if text.len() == 0 {
            None
        } else if is_id_attribute(key, kind) {
            Some((key, lowered(text)))
        } else {
            Some((key, text))
        },
    }
}

/// The name and the value of an attribute as it stands in a document. One that is malformed counts
/// for nothing.
pub open spec fn attribute_entry(attribute: Option<SpecAttribute>, kind: XmlTagType) -> Option<
    (Seq<char>, Seq<char>),
> {
    match attribute {
        None => None,
        Some(raw) => named_entry(lossy_text(raw.key), attribute_text(raw.value), kind),
    }
}

/// The attributes of a tag by name.
pub open spec fn collected_attributes(
    attributes: Seq<Option<SpecAttribute>>,
    kind: XmlTagType,
) -> Map<Seq<char>, Seq<char>>
    decreases attributes.len(),
{
    if attributes.len() == 0 {
        Map::empty()
    } else {
        let earlier = collected_attributes(attributes.drop_last(), kind);
        match attribute_entry(attributes.last(), kind) {
            Some((key, value)) => earlier.insert(key, value),
            None => earlier,
        }
    }
}

/// The tag that a start tag opens.
pub open spec fn opened_tag(start: SpecStart) -> SpecTag {
    let name = lossy_text(start.name);
    let attributes = collected_attributes(start.attributes, tag_type(name));
    SpecTag::bare(
        name,
        if attributes == Map::<Seq<char>, Seq<char>>::empty() {
            None
        } else {
            Some(attributes)
        },
    )
}

/// A document that was read in part: the tags that are open, the innermost last, and the tags
/// that were handed out.
pub struct SpecParse {
    pub stack: Seq<SpecTag>,
    pub tags: Seq<SpecTag>,
}

/// The tags that are open and those that were handed out, as a mathematical value.
pub open spec fn parse_state(stack: Seq<XmlTag>, tags: Seq<XmlTag>) -> SpecParse {
    SpecParse { stack: views(stack), tags: views(tags) }
}

/// Whether a tag is handed out when it ends.
pub open spec fn is_handed_out(tag: SpecTag) -> bool {
    (tag.name == EPG_TAG_CHANNEL@ && tag.has_text(EPG_ATTRIB_ID@)) || (tag.name
        == EPG_TAG_PROGRAMME@ && tag.has_text(EPG_ATTRIB_CHANNEL@))
}

/// A tag with one more child.
pub open spec fn with_child(parent: SpecTag, child: SpecTag) -> SpecTag {
    SpecTag { children: Some(parent.child_tags().push(child)), ..parent }
}

impl SpecParse {
    /// After a start tag: the root is handed out at once, every other tag is open.
    pub open spec fn started(self, start: SpecStart) -> SpecParse {
        let tag = opened_tag(start);
        if tag_type(tag.name) is Tv {
            SpecParse { tags: self.tags.push(tag), ..self }
        } else {
            SpecParse { stack: self.stack.push(tag), ..self }
        }
    }

    /// After an end tag: the innermost open tag ends. A channel or programme is handed out if it
    /// says which channel it is about; every other tag becomes a child of the tag around it.
    pub open spec fn ended(self) -> SpecParse {
        if self.stack.len() == 0 {
            self
        } else {
            let tag = self.stack.last();
            let stack = self.stack.drop_last();
            if is_handed_out(tag) {
                SpecParse { stack, tags: self.tags.push(tag) }
            } else if tag.name == EPG_TAG_CHANNEL@ || tag.name == EPG_TAG_PROGRAMME@ || stack.len()
                == 0 {
                SpecParse { stack, ..self }
            } else {
                SpecParse {
                    stack: stack.drop_last().push(with_child(stack.last(), tag)),
                    ..self
                }
            }
        }
    }

    /// After a text: it is added to the value of the innermost open tag.
    pub open spec fn with_text(self, bytes: Seq<u8>) -> SpecParse {
        SpecParse { stack: stack_with_text(self.stack, bytes), ..self }
    }

    /// After an event. Only tags and texts count.
    pub open spec fn after(self, event: SpecEvent) -> SpecParse {
        match event {
            SpecEvent::Start(start) => self.started(start),
            SpecEvent::Empty(start) => self.started(start).ended(),
            SpecEvent::End => self.ended(),
            SpecEvent::Text(bytes) => self.with_text(bytes),
            _ => self,
        }
    }
}

/// A text as it stands in a value: a backslash at the end is an escaped apostrophe.
pub open spec fn mended_text(text: Seq<char>) -> Seq<char> {
    if text.len() > 0 && text.last() == '\\' {
        text.drop_last() + ESCAPED_APOSTROPHE@
    } else {
        text
    }
}

/// A tag after a text in it. Blank text counts for nothing.
pub open spec fn with_value(tag: SpecTag, text: Seq<char>) -> SpecTag {
    let visible = trimmed(text);
    if visible.len() == 0 {
        tag
    } else {
        SpecTag {
            value: match tag.value {
                None => Some(mended_text(visible)),
                Some(earlier) => Some(earlier + mended_text(visible)),
            },
            ..tag
        }
    }
}

/// The open tags after a text. Bytes that are not UTF-8 count for nothing.
pub open spec fn stack_with_text(stack: Seq<SpecTag>, bytes: Seq<u8>) -> Seq<SpecTag> {
    if stack.len() == 0 || !valid_utf8(bytes) {
        stack
    } else {
        stack.drop_last().push(with_value(stack.last(), decode_utf8(bytes)))
    }
}

/// What was read after all the events.
pub open spec fn parsed(events: Seq<SpecEvent>) -> SpecParse
    decreases events.len(),
{
    if events.len() == 0 {
        SpecParse { stack: Seq::empty(), tags: Seq::empty() }
    } else {
        parsed(events.drop_last()).after(events.last())
    }
}

/// The tags of a document, in the order in which they are complete.
pub open spec fn document_tags(content: Seq<u8>) -> Seq<SpecTag> {
    parsed(document_events(content)).tags
}

/// The name and the value of an attribute.
pub fn name_attribute(key: String, value: Option<String>, kind: XmlTagType) -> (entry: Option<
    (String, String),
>)
    ensures
        match entry {
            Some((name, text)) => text@.len() > 0 && named_entry(key@, view_option(value), kind)
                == Some((name@, text@)),
            None => named_entry(key@, view_option(value), kind) is None,
        },
{
    match value {
        None => None,
        Some(text) => {
            if text.as_str().is_empty() {
                None
            } else if (kind.is_channel() && same_text(key.as_str(), EPG_ATTRIB_ID)) || (
            kind.is_program() && same_text(key.as_str(), EPG_ATTRIB_CHANNEL)) {
                let lower = text.as_str().to_lowercase();
                Some((key, lower))
            } else {
                Some((key, text))
            }
        },
    }
}

/// The name and the value of an attribute as it stands in a document.
fn read_attribute(attribute: &RawAttribute, kind: XmlTagType) -> (entry: Option<(String, String)>)
    ensures
        match entry {
            Some((key, value)) => value@.len() > 0 && attribute_entry(Some(attribute@), kind)
                == Some((key@, value@)),
            None => attribute_entry(Some(attribute@), kind) is None,
        },
{
    name_attribute(
        text_lossy(attribute.key.as_slice()),
        unescape_value(attribute.value.as_slice()),
        kind,
    )
}

/// Collects the attributes of a start tag. None of them is empty.
pub fn collect_tag_attributes(e: &StartTag, kind: XmlTagType) -> (attributes: Attributes)
    ensures
        attributes@ == collected_attributes(e@.attributes, kind),
        forall|key: Seq<char>| #[trigger]
            attributes@.contains_key(key) ==> attributes@[key].len() > 0,
{
    let mut attributes = Attributes::new();
    let ghost all = e@.attributes;
    for i in 0..e.attributes.len()
        invariant
            all == e@.attributes,
            attributes@ == collected_attributes(all.take(i as int), kind),
            forall|key: Seq<char>| #[trigger]
                attributes@.contains_key(key) ==> attributes@[key].len() > 0,
    {
        assert(all.take(i + 1).drop_last() =~= all.take(i as int));
        assert(all.take(i + 1).last() == attribute_view(e.attributes@[i as int]));
        if let Some(attribute) = &e.attributes[i] {
            if let Some((key, value)) = read_attribute(attribute, kind) {
                attributes.insert(key, value);
            }
        }
    }
    assert(all.take(all.len() as int) =~= all);
    attributes
}

proof fn lemma_views_push<T: View>(items: Seq<T>, item: T)
    ensures
        views(items.push(item)) == views(items).push(item@),
{
    assert(views(items.push(item)) =~= views(items).push(item@));
}

proof fn lemma_views_drop_last<T: View>(items: Seq<T>)
    requires
        items.len() > 0,
    ensures
        views(items.drop_last()) == views(items).drop_last(),
        views(items).last() == items.last()@,
{
    assert(views(items.drop_last()) =~= views(items).drop_last());
}

/// Opens a tag. The root is handed out at once.
pub fn handle_tag_start(tags: &mut Vec<XmlTag>, stack: &mut Vec<XmlTag>, e: &StartTag)
    ensures
        parse_state(final(stack)@, final(tags)@) == parse_state(old(stack)@, old(tags)@).started(
            e@,
        ),
{
    let name = text_lossy(e.name.as_slice());
    let kind = get_tag_type(name.as_str());
    let attributes = collect_tag_attributes(e, kind);
    let attribs = if attributes.is_empty() {
        None
    } else {
        Some(attributes)
    };
    let tag = XmlTag::new(name, attribs);
    proof {
        lemma_views_push(stack@, tag);
        lemma_views_push(tags@, tag);
    }
    if kind.is_tv() {
        tags.push(tag);
    } else {
        stack.push(tag);
    }
}

/// Closes the innermost open tag.
pub fn handle_tag_end(tags: &mut Vec<XmlTag>, stack: &mut Vec<XmlTag>)
    ensures
        parse_state(final(stack)@, final(tags)@) == parse_state(old(stack)@, old(tags)@).ended(),
{
    if let Some(tag) = stack.pop() {
        proof {
            lemma_views_drop_last(old(stack)@);
            lemma_views_push(tags@, tag);
            lemma_tag_names_differ();
        }
        if tag.is_named(EPG_TAG_CHANNEL) {
            if tag.has_attribute_text(EPG_ATTRIB_ID) {
                tags.push(tag);
            }
        } else if tag.is_named(EPG_TAG_PROGRAMME) {
            if tag.has_attribute_text(EPG_ATTRIB_CHANNEL) {
                tags.push(tag);
            }
        } else {
            let ghost around = stack@;
            if let Some(mut parent) = stack.pop() {
                proof {
                    lemma_views_drop_last(around);
                }
                parent.add_child(tag);
                proof {
                    lemma_views_push(stack@, parent);
                }
                stack.push(parent);
            }
        }
    }
}

/// A text as it stands in a value.
fn mend_text(text: String) -> (mended: String)
    ensures
        mended@ == mended_text(text@),
{
    let chars = to_chars(text.as_str());
    if chars.len() > 0 && chars[chars.len() - 1] == '\\' {
        let mut mended = from_chars(&chars, 0, chars.len() - 1);
        mended.append(ESCAPED_APOSTROPHE);
        mended
    } else {
        text
    }
}

/// Adds a text to the value of the innermost open tag.
pub fn handle_text_tag(stack: &mut Vec<XmlTag>, bytes: &Vec<u8>)
    ensures
        views(final(stack)@) == stack_with_text(views(old(stack)@), bytes@),
{
    if let Some(mut tag) = stack.pop() {
        proof {
            lemma_views_drop_last(old(stack)@);
        }
        if let Some(text) = decode_text(bytes.as_slice()) {
            let visible = trim(text.as_str());
            if !visible.as_str().is_empty() {
                let mended = mend_text(visible);
                let value = match tag.value.take() {
                    None => mended,
                    Some(mut earlier) => {
                        earlier.append(mended.as_str());
                        earlier
                    },
                };
                tag.value = Some(value);
            }
            proof {
                lemma_views_push(stack@, tag);
            }
            stack.push(tag);
        } else {
            stack.push(tag);
            assert(stack@ =~= old(stack)@);
        }
    }
}

/// Takes in an event of a document.
pub fn handle_event(tags: &mut Vec<XmlTag>, stack: &mut Vec<XmlTag>, event: &XmlEvent)
    ensures
        parse_state(final(stack)@, final(tags)@) == parse_state(old(stack)@, old(tags)@).after(
            event@,
        ),
{
    match event {
        XmlEvent::Start(e) => handle_tag_start(tags, stack, e),
        XmlEvent::Empty(e) => {
            handle_tag_start(tags, stack, e);
            handle_tag_end(tags, stack);
        },
        XmlEvent::End => handle_tag_end(tags, stack),
        XmlEvent::Text(bytes) => handle_text_tag(stack, bytes),
        _ => {},
    }
}

/// Reads the tags of a document: the root, and the channels and programmes with what they hold.
pub fn parse_tvguide(content: &[u8]) -> (tags: Vec<XmlTag>)
    ensures
        views(tags@) == document_tags(content@),
{
    let mut tags: Vec<XmlTag> = Vec::new();
    let mut stack: Vec<XmlTag> = Vec::new();
    let mut reader = open_document(content);
    let ghost all = document_events(content@);
    let ghost mut count: int = 0;
    assert(views(tags@) =~= Seq::<SpecTag>::empty());
    assert(views(stack@) =~= Seq::<SpecTag>::empty());
    assert(all.skip(0) =~= all);
    loop
        invariant
            all == document_events(content@),
            0 <= count <= all.len(),
            events_left(reader) == all.skip(count),
            parse_state(stack@, tags@) == parsed(all.take(count)),
        decreases events_left(reader).len(),
    {
        match next_event(&mut reader) {
            None => {
                assert(all.take(count) =~= all);
                return tags;
            },
            Some(event) => {
                proof {
                    assert(all.take(count + 1).drop_last() =~= all.take(count));
                    assert(all.take(count + 1).last() == event@);
                    assert(all.skip(count).drop_first() =~= all.skip(count + 1));
                    count = count + 1;
                }
                handle_event(&mut tags, &mut stack, &event.into_event());
            },
        }
    }
}

} // verus!
