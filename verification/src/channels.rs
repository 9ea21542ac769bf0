//! The channels of a guide, by id.
use crate::epg_merge::has_id;
use crate::model::{view_option, views, EpgChannel, EpgProgramme, SpecChannel, SpecProgramme};
use vstd::hash_map::StringHashMap;
use vstd::prelude::*;

verus! {

/// Whether no two channels have the same id.
pub open spec fn distinct_ids(channels: Seq<SpecChannel>) -> bool {
    forall|i: int, j: int|
        0 <= i < j < channels.len() ==> (#[trigger] channels[i]).id != (#[trigger] channels[j]).id
}

/// A channel that has no title or icon yet gets these.
pub open spec fn completed(
    channel: SpecChannel,
    title: Option<Seq<char>>,
    icon: Option<Seq<char>>,
) -> SpecChannel {
    SpecChannel {
        title: if channel.title is None {
            title
        } else {
            channel.title
        },
        icon: if channel.icon is None {
            icon
        } else {
            channel.icon
        },
        ..channel
    }
}

/// The channels, where the one with this id is completed.
pub open spec fn with_metadata(
    channels: Seq<SpecChannel>,
    id: Seq<char>,
    title: Option<Seq<char>>,
    icon: Option<Seq<char>>,
) -> Seq<SpecChannel> {
    Seq::new(
        channels.len(),
        |i: int| if channels[i].id == id {
            completed(channels[i], title, icon)
        } else {
            channels[i]
        },
    )
}

/// The channels with one more of this id, which has no programmes yet.
pub open spec fn with_channel(
    channels: Seq<SpecChannel>,
    id: Seq<char>,
    title: Option<Seq<char>>,
    icon: Option<Seq<char>>,
) -> Seq<SpecChannel> {
    channels.push(SpecChannel { id, title, icon, programmes: Seq::empty() })
}

/// The channels, where the one with this id has one more programme.
pub open spec fn with_programme(
    channels: Seq<SpecChannel>,
    id: Seq<char>,
    programme: SpecProgramme,
) -> Seq<SpecChannel> {
    Seq::new(
        channels.len(),
        |i: int| if channels[i].id == id {
            SpecChannel { programmes: channels[i].programmes.push(programme), ..channels[i] }
        } else {
            channels[i]
        },
    )
}

/// Channels with different ids, in the order in which they were added.
pub struct ChannelTable {
    channels: Vec<EpgChannel>,
    positions: StringHashMap<usize>,
}

impl View for ChannelTable {
    type V = Seq<SpecChannel>;

    closed spec fn view(&self) -> Seq<SpecChannel> {
        views(self.channels@)
    }
}

impl ChannelTable {
    /// Whether the ids lead to their channels.
    pub closed spec fn well_formed(&self) -> bool {
        &&& distinct_ids(self@)
        &&& forall|id: Seq<char>| #[trigger]
            self.positions@.contains_key(id) <==> has_id(self@, id)
        &&& forall|id: Seq<char>| #[trigger]
            self.positions@.contains_key(id) ==> self.positions@[id] < self@.len()
                && self@[self.positions@[id] as int].id == id
    }

    /// The ids of a table differ.
    pub proof fn lemma_distinct_ids(&self)
        requires
            self.well_formed(),
        ensures
            distinct_ids(self@),
    {
    }

    /// No channels.
    pub fn new() -> (table: ChannelTable)
        ensures
            table.well_formed(),
            table@ == Seq::<SpecChannel>::empty(),
    {
        let table = ChannelTable { channels: Vec::new(), positions: StringHashMap::new() };
        assert(table@ =~= Seq::<SpecChannel>::empty());
        table
    }

    /// Whether there is a channel with this id.
    pub fn contains(&self, id: &str) -> (r: bool)
        requires
            self.well_formed(),
        ensures
            r == has_id(self@, id@),
    {
        self.positions.contains_key(id)
    }

    /// Adds a channel.
    pub fn add(&mut self, id: String, title: Option<String>, icon: Option<String>)
        requires
            old(self).well_formed(),
            !has_id(old(self)@, id@),
        ensures
            final(self).well_formed(),
            final(self)@ == with_channel(
                old(self)@,
                id@,
                view_option(title),
                view_option(icon),
            ),
    {
        let ghost before = self@;
        let position: usize = self.channels.len();
        self.positions.insert(id.clone(), position);
        let programmes: Vec<EpgProgramme> = Vec::new();
        assert(views(programmes@) =~= Seq::<SpecProgramme>::empty());
        self.channels.push(EpgChannel { id, title, icon, programmes });
        let ghost after = self@;
        assert(after =~= with_channel(before, id@, view_option(title), view_option(icon)));
        assert(after[before.len() as int].id == id@);
        assert forall|k: int| 0 <= k < before.len() implies before[k].id != id@ by {
            if before[k].id == id@ {
                assert(has_id(before, id@));
            }
        }
        assert forall|other: Seq<char>| has_id(after, other) <==> has_id(before, other) || other
            == id@ by {
            if has_id(before, other) {
                let k = choose|k: int| 0 <= k < before.len() && (#[trigger] before[k]).id == other;
                assert(after[k] == before[k]);
            }
            if has_id(after, other) {
                let k = choose|k: int| 0 <= k < after.len() && (#[trigger] after[k]).id == other;
                if k < before.len() {
                    assert(before[k] == after[k]);
                }
            }
        }
    }

    /// Completes the channel with this id.
    pub fn complete(&mut self, id: &str, title: Option<String>, icon: Option<String>)
        requires
            old(self).well_formed(),
            has_id(old(self)@, id@),
        ensures
            final(self).well_formed(),
            final(self)@ == with_metadata(
                old(self)@,
                id@,
                view_option(title),
                view_option(icon),
            ),
    {
        let ghost before = self@;
        if let Some(position) = self.positions.get(id) {
            let at: usize = *position;
            let channel = &mut self.channels[at];
            if channel.title.is_none() {
                channel.title = title;
            }
            if channel.icon.is_none() {
                channel.icon = icon;
            }
            assert forall|k: int| 0 <= k < before.len() && k != at implies before[k].id
                != id@ by {}
            assert(self@ =~= with_metadata(before, id@, view_option(title), view_option(icon)));
            proof {
                lemma_same_ids(before, self@);
            }
        }
    }

    /// Adds a programme to the channel with this id.
    pub fn add_programme(&mut self, id: &str, programme: EpgProgramme)
        requires
            old(self).well_formed(),
            has_id(old(self)@, id@),
        ensures
            final(self).well_formed(),
            final(self)@ == with_programme(old(self)@, id@, programme@),
    {
        let ghost before = self@;
        if let Some(position) = self.positions.get(id) {
            let at: usize = *position;
            let ghost programmes = self.channels@[at as int].programmes@;
            let channel = &mut self.channels[at];
            channel.programmes.push(programme);
            assert(views(programmes.push(programme)) =~= views(programmes).push(programme@));
            assert forall|k: int| 0 <= k < before.len() && k != at implies before[k].id
                != id@ by {}
            assert(self@ =~= with_programme(before, id@, programme@));
            proof {
                lemma_same_ids(before, self@);
            }
        }
    }

    /// Whether there is no channel.
    pub fn is_empty(&self) -> (r: bool)
        ensures
            r == (self@.len() == 0),
    {
        self.channels.len() == 0
    }

    /// The channels, in the order in which they were added.
    pub fn into_channels(self) -> (channels: Vec<EpgChannel>)
        ensures
            views(channels@) == self@,
    {
        self.channels
    }
}

/// Channels with the same ids in the same places have the same ids.
proof fn lemma_same_ids(before: Seq<SpecChannel>, after: Seq<SpecChannel>)
    requires
        before.len() == after.len(),
        forall|i: int| 0 <= i < before.len() ==> (#[trigger] before[i]).id == after[i].id,
    ensures
        forall|id: Seq<char>| #[trigger] has_id(before, id) <==> has_id(after, id),
{
    assert forall|id: Seq<char>| #[trigger] has_id(before, id) <==> has_id(after, id) by {
        if has_id(before, id) {
            let k = choose|k: int| 0 <= k < before.len() && (#[trigger] before[k]).id == id;
            assert(after[k].id == id);
        }
        if has_id(after, id) {
            let k = choose|k: int| 0 <= k < after.len() && (#[trigger] after[k]).id == id;
            assert(before[k].id == id);
        }
    }
}

} // verus!
