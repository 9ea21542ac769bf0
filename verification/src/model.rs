//! The guide data: programmes, channels, guides and the sources they come from.
use vstd::hash_map::StringHashMap;
use vstd::prelude::*;

verus! {

/// The views of the elements of a sequence.
pub open spec fn views<T: View>(items: Seq<T>) -> Seq<T::V> {
    Seq::new(items.len(), |i: int| items[i]@)
}

/// The view of a value that may be missing.
pub open spec fn view_option<T: View>(item: Option<T>) -> Option<T::V> {
    match item {
        Some(value) => Some(value@),
        None => None,
    }
}

/// A programme of a channel. Times are seconds since the Unix epoch.
pub struct EpgProgramme {
    pub start: i64,
    pub stop: i64,
    pub channel: String,
    pub title: Option<String>,
    pub desc: Option<String>,
}

/// An [`EpgProgramme`] as a mathematical value.
pub struct SpecProgramme {
    pub start: i64,
    pub stop: i64,
    pub channel: Seq<char>,
    pub title: Option<Seq<char>>,
    pub desc: Option<Seq<char>>,
}

impl View for EpgProgramme {
    type V = SpecProgramme;

    open spec fn view(&self) -> SpecProgramme {
        SpecProgramme {
            start: self.start,
            stop: self.stop,
            channel: self.channel@,
            title: view_option(self.title),
            desc: view_option(self.desc),
        }
    }
}

impl EpgProgramme {
    /// A programme with all its fields.
    pub fn new_all(
        start: i64,
        stop: i64,
        channel: String,
        title: Option<String>,
        desc: Option<String>,
    ) -> (programme: EpgProgramme)
        ensures
            programme@ == (SpecProgramme {
                start,
                stop,
                channel: channel@,
                title: view_option(title),
                desc: view_option(desc),
            }),
    {
        EpgProgramme { start, stop, channel, title, desc }
    }
}

/// A channel and its programmes.
pub struct EpgChannel {
    pub id: String,
    pub title: Option<String>,
    pub icon: Option<String>,
    pub programmes: Vec<EpgProgramme>,
}

/// An [`EpgChannel`] as a mathematical value.
pub struct SpecChannel {
    pub id: Seq<char>,
    pub title: Option<Seq<char>>,
    pub icon: Option<Seq<char>>,
    pub programmes: Seq<SpecProgramme>,
}

impl View for EpgChannel {
    type V = SpecChannel;

    open spec fn view(&self) -> SpecChannel {
        SpecChannel {
            id: self.id@,
            title: view_option(self.title),
            icon: view_option(self.icon),
            programmes: views(self.programmes@),
        }
    }
}

/// The attributes of a tag, by name.
pub struct Attributes {
    entries: StringHashMap<String>,
}

impl View for Attributes {
    type V = Map<Seq<char>, Seq<char>>;

    closed spec fn view(&self) -> Map<Seq<char>, Seq<char>> {
        self.entries@.map_values(|value: String| value@)
    }
}

impl Attributes {
    /// No attributes.
    pub fn new() -> (attributes: Attributes)
        ensures
            attributes@ == Map::<Seq<char>, Seq<char>>::empty(),
    {
        let attributes = Attributes { entries: StringHashMap::new() };
        assert(attributes@ =~= Map::<Seq<char>, Seq<char>>::empty());
        attributes
    }

    /// Sets an attribute.
    pub fn insert(&mut self, name: String, value: String)
        ensures
            final(self)@ == old(self)@.insert(name@, value@),
    {
        self.entries.insert(name, value);
        assert(self@ =~= old(self)@.insert(name@, value@));
    }

    /// The value of an attribute.
    pub fn get(&self, name: &str) -> (value: Option<&String>)
        ensures
            match value {
                Some(v) => self@.contains_key(name@) && self@[name@] == v@,
                None => !self@.contains_key(name@),
            },
    {
        self.entries.get(name)
    }

    /// Whether there is no attribute.
    pub fn is_empty(&self) -> (r: bool)
        ensures
            r == (self@ == Map::<Seq<char>, Seq<char>>::empty()),
    {
        let r = self.entries.is_empty();
        proof {
            if self.entries@.is_empty() {
                assert(self@ =~= Map::<Seq<char>, Seq<char>>::empty());
            } else {
                assert(self@.dom() =~= self.entries@.dom());
            }
        }
        r
    }
}

/// The guide that one source gives, or several sources together.
pub struct Epg {
    pub logo_override: bool,
    pub priority: i16,
    pub attributes: Option<Attributes>,
    /// The channels, which nobody else holds.
    pub children: Vec<EpgChannel>,
}

/// An [`Epg`] as a mathematical value.
pub struct SpecEpg {
    pub logo_override: bool,
    pub priority: i16,
    pub attributes: Option<Map<Seq<char>, Seq<char>>>,
    pub children: Seq<SpecChannel>,
}

impl View for Epg {
    type V = SpecEpg;

    open spec fn view(&self) -> SpecEpg {
        SpecEpg {
            logo_override: self.logo_override,
            priority: self.priority,
            attributes: view_option(self.attributes),
            children: views(self.children@),
        }
    }
}

/// A guide file on disk. The lower the number, the higher the priority.
pub struct PersistedEpgSource {
    pub file_path: String,
    pub priority: i16,
    pub logo_override: bool,
}

/// The guide files of an input.
pub struct TVGuide {
    epg_sources: Vec<PersistedEpgSource>,
}

impl TVGuide {
    /// The guide files, in the order in which they are read.
    pub closed spec fn sources(&self) -> Seq<PersistedEpgSource> {
        self.epg_sources@
    }

    /// A guide of the given files.
    pub fn new(epg_sources: Vec<PersistedEpgSource>) -> (guide: TVGuide)
        ensures
            guide.sources() == epg_sources@,
    {
        TVGuide { epg_sources }
    }

    /// The guide files.
    pub fn get_epg_sources(&self) -> (sources: &Vec<PersistedEpgSource>)
        ensures
            sources@ == self.sources(),
    {
        &self.epg_sources
    }
}

} // verus!
