//! The tags of a guide document.
use crate::model::{view_option, views, Attributes};
use crate::text::same_text;
use vstd::prelude::*;

verus! {

/// The root of a guide.
pub const EPG_TAG_TV: &'static str = "tv";

/// A channel.
pub const EPG_TAG_CHANNEL: &'static str = "channel";

/// A programme.
pub const EPG_TAG_PROGRAMME: &'static str = "programme";

/// A name of a channel.
pub const EPG_TAG_DISPLAY_NAME: &'static str = "display-name";

/// The icon of a channel.
pub const EPG_TAG_ICON: &'static str = "icon";

/// The title of a programme.
pub const EPG_TAG_TITLE: &'static str = "title";

/// The description of a programme.
pub const EPG_TAG_DESC: &'static str = "desc";

/// The id of a channel.
pub const EPG_ATTRIB_ID: &'static str = "id";

/// The channel of a programme.
pub const EPG_ATTRIB_CHANNEL: &'static str = "channel";

/// The source of an icon.
pub const EPG_ATTRIB_SRC: &'static str = "src";

/// The start of a programme.
pub const EPG_ATTRIB_START: &'static str = "start";

/// The end of a programme.
pub const EPG_ATTRIB_STOP: &'static str = "stop";

/// The icon that was found for a channel.
pub enum XmlTagIcon {
    Undefined,
    Src(String),
}

/// An [`XmlTagIcon`] as a mathematical value: the source, if there is one.
pub type SpecIcon = Option<Seq<char>>;

impl View for XmlTagIcon {
    type V = SpecIcon;

    open spec fn view(&self) -> SpecIcon {
        match *self {
            XmlTagIcon::Undefined => None,
            XmlTagIcon::Src(source) => Some(source@),
        }
    }
}

/// A tag with what it holds.
pub struct XmlTag {
    pub name: String,
    pub value: Option<String>,
    pub attributes: Option<Attributes>,
    pub children: Option<Vec<XmlTag>>,
    pub icon: XmlTagIcon,
    pub normalized_epg_ids: Option<Vec<String>>,
}

/// An [`XmlTag`] as a mathematical value.
pub struct SpecTag {
    pub name: Seq<char>,
    pub value: Option<Seq<char>>,
    pub attributes: Option<Map<Seq<char>, Seq<char>>>,
    pub children: Option<Seq<SpecTag>>,
    pub icon: SpecIcon,
    pub normalized_epg_ids: Option<Seq<Seq<char>>>,
}

/// A tag as a mathematical value.
pub open spec fn tag_view(tag: XmlTag) -> SpecTag
    decreases tag,
{
    SpecTag {
        name: tag.name@,
        value: view_option(tag.value),
        attributes: view_option(tag.attributes),
        children: match tag.children {
            Some(children) => Some(tag_views(children@)),
            None => None,
        },
        icon: tag.icon@,
        normalized_epg_ids: match tag.normalized_epg_ids {
            Some(ids) => Some(views(ids@)),
            None => None,
        },
    }
}

/// Tags as mathematical values.
pub open spec fn tag_views(tags: Seq<XmlTag>) -> Seq<SpecTag>
    decreases tags,
{
    if tags.len() == 0 {
        Seq::empty()
    } else {
        tag_views(tags.drop_last()).push(tag_view(tags.last()))
    }
}

impl View for XmlTag {
    type V = SpecTag;

    open spec fn view(&self) -> SpecTag {
        tag_view(*self)
    }
}

/// The views of tags are the views of the single tags.
pub proof fn lemma_tag_views(tags: Seq<XmlTag>)
    ensures
        tag_views(tags) == views(tags),
    decreases tags.len(),
{
    if tags.len() > 0 {
        lemma_tag_views(tags.drop_last());
        assert(views(tags) =~= views(tags.drop_last()).push(tags.last()@));
    }
    assert(tag_views(tags) =~= views(tags));
}

impl SpecTag {
    /// The value of an attribute.
    pub open spec fn attribute(self, name: Seq<char>) -> Option<Seq<char>> {
        match self.attributes {
            Some(attributes) => if attributes.contains_key(name) {
                Some(attributes[name])
            } else {
                None
            },
            None => None,
        }
    }

    /// Whether an attribute is there and not empty.
    pub open spec fn has_text(self, name: Seq<char>) -> bool {
        self.attribute(name) is Some && self.attribute(name)->0.len() > 0
    }

    /// A tag that holds nothing but its attributes.
    pub open spec fn bare(
        name: Seq<char>,
        attributes: Option<Map<Seq<char>, Seq<char>>>,
    ) -> SpecTag {
        SpecTag {
            name,
            value: None,
            attributes,
            children: None,
            icon: None,
            normalized_epg_ids: None,
        }
    }

    /// The children, if any.
    pub open spec fn child_tags(self) -> Seq<SpecTag> {
        match self.children {
            Some(children) => children,
            None => Seq::empty(),
        }
    }

    /// The normalized ids, if any.
    pub open spec fn ids(self) -> Seq<Seq<char>> {
        match self.normalized_epg_ids {
            Some(ids) => ids,
            None => Seq::empty(),
        }
    }
}

impl XmlTag {
    /// A tag that holds nothing but its attributes.
    pub fn new(name: String, attributes: Option<Attributes>) -> (tag: XmlTag)
        ensures
            tag@ == SpecTag::bare(name@, view_option(attributes)),
    {
        XmlTag {
            name,
            value: None,
            attributes,
            children: None,
            icon: XmlTagIcon::Undefined,
            normalized_epg_ids: None,
        }
    }

    /// The value of an attribute.
    pub fn get_attribute_value(&self, name: &str) -> (value: Option<&String>)
        ensures
            match value {
                Some(v) => self@.attribute(name@) == Some(v@),
                None => self@.attribute(name@) is None,
            },
    {
        match &self.attributes {
            Some(attributes) => attributes.get(name),
            None => None,
        }
    }

    /// Whether an attribute is there and not empty.
    pub fn has_attribute_text(&self, name: &str) -> (r: bool)
        ensures
            r == self@.has_text(name@),
    {
        match self.get_attribute_value(name) {
            Some(value) => !value.as_str().is_empty(),
            None => false,
        }
    }

    /// Whether this is the name of the tag.
    pub fn is_named(&self, name: &str) -> (r: bool)
        ensures
            r == (self@.name == name@),
    {
        same_text(self.name.as_str(), name)
    }

    /// Adds a tag to the children.
    pub fn add_child(&mut self, child: XmlTag)
        ensures
            final(self)@ == (SpecTag {
                children: Some(old(self)@.child_tags().push(child@)),
                ..old(self)@
            }),
    {
        let mut children = match self.children.take() {
            Some(children) => children,
            None => Vec::new(),
        };
        let ghost before = children@;
        children.push(child);
        proof {
            lemma_tag_views(before);
            lemma_tag_views(children@);
            assert(views(children@) =~= views(before).push(child@));
            assert(before.len() == 0 ==> views(before) =~= Seq::<SpecTag>::empty());
        }
        self.children = Some(children);
    }

    /// Adds a normalized id.
    pub fn add_normalized_id(&mut self, id: String)
        ensures
            final(self)@ == (SpecTag {
                normalized_epg_ids: Some(old(self)@.ids().push(id@)),
                ..old(self)@
            }),
            final(self).normalized_epg_ids is Some,
    {
        let mut ids = match self.normalized_epg_ids.take() {
            Some(ids) => ids,
            None => Vec::new(),
        };
        let ghost before = ids@;
        ids.push(id);
        assert(views(ids@) =~= views(before).push(id@));
        assert(before.len() == 0 ==> views(before) =~= Seq::<Seq<char>>::empty());
        self.normalized_epg_ids = Some(ids);
    }
}

/// The kinds of tags that a guide is read by.
#[derive(Clone, Copy, PartialEq, Eq, Hash, Debug, Structural)]
pub enum XmlTagType {
    Ignored,
    Tv,
    Channel,
    Programme,
}

impl XmlTagType {
    /// Whether this is the root.
    pub fn is_tv(self) -> (r: bool)
        ensures
            r == (self is Tv),
    {
        self == XmlTagType::Tv
    }

    /// Whether this is a channel.
    pub fn is_channel(self) -> (r: bool)
        ensures
            r == (self is Channel),
    {
        self == XmlTagType::Channel
    }

    /// Whether this is a programme.
    pub fn is_program(self) -> (r: bool)
        ensures
            r == (self is Programme),
    {
        self == XmlTagType::Programme
    }
}

/// The kind of a tag with this name.
pub open spec fn tag_type(name: Seq<char>) -> XmlTagType {
    if name == EPG_TAG_TV@ {
        XmlTagType::Tv
    } else if name == EPG_TAG_CHANNEL@ {
        XmlTagType::Channel
    } else if name == EPG_TAG_PROGRAMME@ {
        XmlTagType::Programme
    } else {
        XmlTagType::Ignored
    }
}

/// The kinds of tags have different names.
pub proof fn lemma_tag_names_differ()
    ensures
        EPG_TAG_TV@ != EPG_TAG_CHANNEL@,
        EPG_TAG_TV@ != EPG_TAG_PROGRAMME@,
        EPG_TAG_CHANNEL@ != EPG_TAG_PROGRAMME@,
{
    reveal_strlit("tv");
    reveal_strlit("channel");
    reveal_strlit("programme");
    assert(EPG_TAG_TV@.len() == 2);
    assert(EPG_TAG_CHANNEL@.len() == 7);
    assert(EPG_TAG_PROGRAMME@.len() == 9);
}

/// The kind of a tag, by its name.
pub fn get_tag_type(name: &str) -> (kind: XmlTagType)
    ensures
        kind == tag_type(name@),
{
    if same_text(name, EPG_TAG_TV) {
        XmlTagType::Tv
    } else if same_text(name, EPG_TAG_CHANNEL) {
        XmlTagType::Channel
    } else if same_text(name, EPG_TAG_PROGRAMME) {
        XmlTagType::Programme
    } else {
        XmlTagType::Ignored
    }
}

} // verus!
