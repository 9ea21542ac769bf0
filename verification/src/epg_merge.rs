//! Merging the channels of several sources into one list.
use crate::model::{view_option, views, EpgChannel, EpgProgramme, SpecChannel, SpecProgramme};
use crate::sorting::{lemma_stable_sorted_map, stable_sort, stable_sorted, Ranked, SortKey};
use std::collections::HashSet;
use vstd::hash_map::StringHashMap;
use vstd::prelude::*;

verus! {

broadcast use vstd::std_specs::hash::group_hash_axioms;

impl Ranked for EpgProgramme {
    /// Programmes are ranked by their start.
    open spec fn rank(&self) -> int {
        self.start as int
    }
}

impl SortKey for EpgProgramme {
    fn sort_key(&self) -> (key: i64) {
        self.start
    }
}

impl Ranked for SpecProgramme {
    open spec fn rank(&self) -> int {
        self.start as int
    }
}

impl Ranked for (i16, Vec<EpgChannel>) {
    /// Sources are ranked by their priority.
    open spec fn rank(&self) -> int {
        self.0 as int
    }
}

impl SortKey for (i16, Vec<EpgChannel>) {
    fn sort_key(&self) -> (key: i64) {
        self.0 as i64
    }
}

impl Ranked for (i16, Seq<SpecChannel>) {
    open spec fn rank(&self) -> int {
        self.0 as int
    }
}

/// What tells one programme of a channel from another: the slot that it takes.
#[derive(Clone, Copy, PartialEq, Eq, Structural)]
pub struct ProgrammeMergeKey {
    pub start: i64,
    pub stop: i64,
}

impl ProgrammeMergeKey {
    /// One number for both times.
    spec fn spec_code(self) -> int {
        (self.start + 0x8000_0000_0000_0000) * 0x1_0000_0000_0000_0000 + (self.stop
            + 0x8000_0000_0000_0000)
    }

    fn code(self) -> (code: u128)
        ensures
            code == self.spec_code(),
    {
        let high: u128 = (self.start as i128 + 0x8000_0000_0000_0000) as u128;
        let low: u128 = (self.stop as i128 + 0x8000_0000_0000_0000) as u128;
        high * 0x1_0000_0000_0000_0000 + low
    }
}

impl From<&EpgProgramme> for ProgrammeMergeKey {
    fn from(programme: &EpgProgramme) -> (key: ProgrammeMergeKey) {
        ProgrammeMergeKey { start: programme.start, stop: programme.stop }
    }
}

impl vstd::std_specs::convert::FromSpecImpl<&EpgProgramme> for ProgrammeMergeKey {
    open spec fn obeys_from_spec() -> bool {
        true
    }

    open spec fn from_spec(programme: &EpgProgramme) -> ProgrammeMergeKey {
        slot(programme@)
    }
}

/// The slot of a programme.
pub open spec fn slot(programme: SpecProgramme) -> ProgrammeMergeKey {
    ProgrammeMergeKey { start: programme.start, stop: programme.stop }
}

/// A set of slots.
pub struct ProgrammeKeys {
    codes: HashSet<u128>,
}

impl View for ProgrammeKeys {
    type V = Set<ProgrammeMergeKey>;

    closed spec fn view(&self) -> Set<ProgrammeMergeKey> {
        Set::new(|key: ProgrammeMergeKey| self.codes@.contains(key.spec_code() as u128))
    }
}

impl ProgrammeKeys {
    /// No slot.
    pub fn new() -> (keys: ProgrammeKeys)
        ensures
            keys@ == Set::<ProgrammeMergeKey>::empty(),
    {
        let keys = ProgrammeKeys { codes: HashSet::new() };
        assert(keys@ =~= Set::<ProgrammeMergeKey>::empty());
        keys
    }

    /// Adds a slot and tells whether it is new.
    pub fn insert(&mut self, key: ProgrammeMergeKey) -> (added: bool)
        ensures
            final(self)@ == old(self)@.insert(key),
            added == !old(self)@.contains(key),
    {
        let added = self.codes.insert(key.code());
        assert(self@ =~= old(self)@.insert(key));
        added
    }
}

/// The slots that programmes take.
pub open spec fn slots(programmes: Seq<SpecProgramme>) -> Set<ProgrammeMergeKey> {
    Set::new(
        |key: ProgrammeMergeKey|
            exists|i: int| 0 <= i < programmes.len() && slot(#[trigger] programmes[i]) == key,
    )
}

/// The programmes whose slot is not taken, neither in `taken` nor by a programme before them.
pub open spec fn fresh(
    taken: Set<ProgrammeMergeKey>,
    programmes: Seq<SpecProgramme>,
) -> Seq<SpecProgramme>
    decreases programmes.len(),
{
    if programmes.len() == 0 {
        Seq::empty()
    } else {
        let before = programmes.drop_last();
        let last = programmes.last();
        if taken.contains(slot(last)) || slots(before).contains(slot(last)) {
            fresh(taken, before)
        } else {
            fresh(taken, before).push(last)
        }
    }
}

/// The programmes that are the first in their slot.
pub open spec fn deduplicated(programmes: Seq<SpecProgramme>) -> Seq<SpecProgramme> {
    fresh(Set::empty(), programmes)
}

/// One programme more takes one slot more, or none.
pub proof fn lemma_slots_push(programmes: Seq<SpecProgramme>, last: SpecProgramme)
    ensures
        slots(programmes.push(last)) == slots(programmes).insert(slot(last)),
{
    let more = programmes.push(last);
    assert forall|key: ProgrammeMergeKey| slots(programmes).insert(slot(last)).contains(key) implies slots(
        more,
    ).contains(key) by {
        if slots(programmes).contains(key) {
            let i = choose|i: int|
                0 <= i < programmes.len() && slot(#[trigger] programmes[i]) == key;
            assert(slot(more[i]) == key);
        } else {
            assert(slot(more[programmes.len() as int]) == key);
        }
    }
    assert(slots(more) =~= slots(programmes).insert(slot(last)));
}

/// Removes every programme whose slot an earlier programme of the channel takes, and returns the
/// slots of the channel.
pub fn dedupe_channel_programmes(channel: &mut EpgChannel) -> (seen: ProgrammeKeys)
    ensures
        final(channel)@ == (SpecChannel {
            programmes: deduplicated(old(channel)@.programmes),
            ..old(channel)@
        }),
        seen@ == slots(old(channel)@.programmes),
{
    let mut seen = ProgrammeKeys::new();
    let mut programmes: Vec<EpgProgramme> = Vec::new();
    core::mem::swap(&mut programmes, &mut channel.programmes);
    assert(seen@ =~= slots(Seq::<SpecProgramme>::empty()));
    assert(views(channel.programmes@) =~= Seq::<SpecProgramme>::empty());
    merge_missing_channel_programmes(channel, &mut seen, programmes);
    assert(seen@ =~= slots(old(channel)@.programmes));
    assert(channel@.programmes =~= deduplicated(old(channel)@.programmes));
    seen
}

/// Adds the incoming programmes whose slot is not taken yet.
pub fn merge_missing_channel_programmes(
    channel: &mut EpgChannel,
    programmes: &mut ProgrammeKeys,
    incoming: Vec<EpgProgramme>,
)
    ensures
        final(channel)@ == (SpecChannel {
            programmes: old(channel)@.programmes + fresh(old(programmes)@, views(incoming@)),
            ..old(channel)@
        }),
        final(programmes)@ == old(programmes)@.union(slots(views(incoming@))),
{
    let ghost taken = programmes@;
    let ghost all = views(incoming@);
    let ghost source = incoming@;
    let ghost start = channel@;
    assert(views(channel.programmes@) =~= start.programmes + fresh(taken, all.take(0)));
    assert(programmes@ =~= taken.union(slots(all.take(0))));
    for programme in it: incoming
        invariant
            it.seq() == source,
            all == views(source),
            programmes@ == taken.union(slots(all.take(it.index()))),
            channel.id@ == start.id,
            view_option(channel.title) == start.title,
            view_option(channel.icon) == start.icon,
            views(channel.programmes@) == start.programmes + fresh(taken, all.take(it.index())),
    {
        let ghost n = it.index();
        let ghost before = all.take(n);
        proof {
            assert(all.take(n + 1) =~= before.push(programme@));
            assert(all.take(n + 1).drop_last() =~= before);
            lemma_slots_push(before, programme@);
        }
        let key = ProgrammeMergeKey::from(&programme);
        if programmes.insert(key) {
            let ghost held = channel.programmes@;
            channel.programmes.push(programme);
            assert(views(channel.programmes@) =~= views(held).push(programme@));
            assert(views(channel.programmes@) =~= start.programmes + fresh(taken, all.take(n + 1)));
        }
        assert(programmes@ =~= taken.union(slots(all.take(n + 1))));
    }
    assert(all.take(all.len() as int) =~= all);
}

/// Whether a channel with this id is among `channels`.
pub open spec fn has_id(channels: Seq<SpecChannel>, id: Seq<char>) -> bool {
    exists|i: int| 0 <= i < channels.len() && (#[trigger] channels[i]).id == id
}

/// The channels that are the first with their id.
pub open spec fn first_by_id(channels: Seq<SpecChannel>) -> Seq<SpecChannel>
    decreases channels.len(),
{
    if channels.len() == 0 {
        Seq::empty()
    } else {
        let before = channels.drop_last();
        if has_id(before, channels.last().id) {
            first_by_id(before)
        } else {
            first_by_id(before).push(channels.last())
        }
    }
}

/// The programmes of all the channels with this id, in the order of the channels.
pub open spec fn programmes_of(channels: Seq<SpecChannel>, id: Seq<char>) -> Seq<SpecProgramme>
    decreases channels.len(),
{
    if channels.len() == 0 {
        Seq::empty()
    } else if channels.last().id == id {
        programmes_of(channels.drop_last(), id) + channels.last().programmes
    } else {
        programmes_of(channels.drop_last(), id)
    }
}

/// The channels of all sources, source after source.
pub open spec fn all_channels(sources: Seq<(i16, Seq<SpecChannel>)>) -> Seq<SpecChannel>
    decreases sources.len(),
{
    if sources.len() == 0 {
        Seq::empty()
    } else {
        all_channels(sources.drop_last()) + sources.last().1
    }
}

/// The channels of all sources, those of a preferred source before the others.
pub open spec fn by_preference(sources: Seq<(i16, Seq<SpecChannel>)>) -> Seq<SpecChannel> {
    all_channels(stable_sorted(sources))
}

/// A channel with the programmes of all the channels that share its id, one for each slot, by
/// start.
pub open spec fn with_all_programmes(
    channel: SpecChannel,
    channels: Seq<SpecChannel>,
) -> SpecChannel {
    SpecChannel {
        programmes: stable_sorted(deduplicated(programmes_of(channels, channel.id))),
        ..channel
    }
}

/// One channel for each id of the sources. Title and icon are those of the most preferred source
/// that has the channel; the programmes are those of all sources, and where two share a slot,
/// that of the more preferred source.
pub open spec fn merged_channels(sources: Seq<(i16, Seq<SpecChannel>)>) -> Seq<SpecChannel> {
    let channels = by_preference(sources);
    let winners = first_by_id(channels);
    Seq::new(winners.len(), |i: int| with_all_programmes(winners[i], channels))
}

/// Sources as mathematical values.
pub open spec fn source_views(sources: Seq<(i16, Vec<EpgChannel>)>) -> Seq<
    (i16, Seq<SpecChannel>),
> {
    Seq::new(sources.len(), |i: int| (sources[i].0, views(sources[i].1@)))
}

/// The slots of two lists of programmes, one after the other.
pub proof fn lemma_slots_concat(left: Seq<SpecProgramme>, right: Seq<SpecProgramme>)
    ensures
        slots(left + right) == slots(left).union(slots(right)),
{
    let both = left + right;
    assert forall|key: ProgrammeMergeKey| slots(left).union(slots(right)).contains(key) implies slots(
        both,
    ).contains(key) by {
        if slots(left).contains(key) {
            let i = choose|i: int| 0 <= i < left.len() && slot(#[trigger] left[i]) == key;
            assert(slot(both[i]) == key);
        } else {
            let i = choose|i: int| 0 <= i < right.len() && slot(#[trigger] right[i]) == key;
            assert(slot(both[left.len() + i]) == key);
        }
    }
    assert forall|key: ProgrammeMergeKey| slots(both).contains(key) implies slots(left).union(
        slots(right),
    ).contains(key) by {
        let i = choose|i: int| 0 <= i < both.len() && slot(#[trigger] both[i]) == key;
        if i < left.len() {
            assert(slot(left[i]) == key);
        } else {
            assert(slot(right[i - left.len()]) == key);
        }
    }
    assert(slots(both) =~= slots(left).union(slots(right)));
}

/// Taking the fresh programmes of two lists in turn is taking those of the lists together.
pub proof fn lemma_fresh_concat(
    taken: Set<ProgrammeMergeKey>,
    left: Seq<SpecProgramme>,
    right: Seq<SpecProgramme>,
)
    ensures
        fresh(taken, left + right) == fresh(taken, left) + fresh(taken.union(slots(left)), right),
    decreases right.len(),
{
    if right.len() == 0 {
        assert(left + right =~= left);
        assert(fresh(taken, left) + fresh(taken.union(slots(left)), right) =~= fresh(taken, left));
    } else {
        let before = right.drop_last();
        let last = right.last();
        lemma_fresh_concat(taken, left, before);
        assert((left + right).drop_last() =~= left + before);
        lemma_slots_concat(left, before);
        assert(fresh(taken, left + right) =~= fresh(taken, left) + fresh(
            taken.union(slots(left)),
            right,
        ));
    }
}

/// The channels merged so far, the slots that their programmes take, and where each id stands.
struct MergedChannels {
    channels: Vec<EpgChannel>,
    seen: Vec<ProgrammeKeys>,
    index: StringHashMap<usize>,
}

impl MergedChannels {
    /// Whether this is what `channels` merge to, but for the order of the programmes.
    spec fn merges(&self, channels: Seq<SpecChannel>) -> bool {
        let winners = first_by_id(channels);
        &&& self.channels@.len() == winners.len()
        &&& self.seen@.len() == winners.len()
        &&& forall|i: int|
            0 <= i < winners.len() ==> {
                let all = programmes_of(channels, (#[trigger] winners[i]).id);
                &&& self.channels@[i]@ == (SpecChannel {
                    programmes: deduplicated(all),
                    ..winners[i]
                })
                &&& self.seen@[i]@ == slots(all)
            }
        &&& forall|id: Seq<char>| #[trigger]
            self.index@.contains_key(id) <==> has_id(channels, id)
        &&& forall|id: Seq<char>| #[trigger]
            self.index@.contains_key(id) ==> {
                &&& self.index@[id] < winners.len()
                &&& winners[self.index@[id] as int].id == id
            }
    }

    fn new() -> (merged: MergedChannels)
        ensures
            merged.merges(Seq::empty()),
    {
        MergedChannels { channels: Vec::new(), seen: Vec::new(), index: StringHashMap::new() }
    }

    fn add(&mut self, channel: EpgChannel, Ghost(channels): Ghost<Seq<SpecChannel>>)
        requires
            old(self).merges(channels),
        ensures
            final(self).merges(channels.push(channel@)),
    {
        let ghost more = channels.push(channel@);
        let ghost winners = first_by_id(channels);
        proof {
            assert(more.drop_last() =~= channels);
            lemma_has_id_push(channels, channel@);
            lemma_first_by_id(channels);
        }
        match self.index.get(channel.id.as_str()) {
            Some(at) => {
                let at: usize = *at;
                let ghost all = programmes_of(channels, channel@.id);
                let ghost held = self.channels@;
                let ghost keys = self.seen@;
                proof {
                    lemma_fresh_concat(Set::empty(), all, channel@.programmes);
                    lemma_slots_concat(all, channel@.programmes);
                    assert(Set::<ProgrammeMergeKey>::empty().union(slots(all)) =~= slots(all));
                }
                merge_missing_channel_programmes(
                    &mut self.channels[at],
                    &mut self.seen[at],
                    channel.programmes,
                );
                assert forall|i: int| 0 <= i < winners.len() implies {
                    let all = programmes_of(more, (#[trigger] winners[i]).id);
                    &&& self.channels@[i]@ == (SpecChannel {
                        programmes: deduplicated(all),
                        ..winners[i]
                    })
                    &&& self.seen@[i]@ == slots(all)
                } by {
                    if i != at {
                        assert(self.channels@[i] == held[i]);
                        assert(self.seen@[i] == keys[i]);
                    }
                }
            },
            None => {
                let at: usize = self.channels.len();
                let id = channel.id.clone();
                let mut channel = channel;
                let ghost added = channel@;
                let ghost held = self.channels@;
                let ghost keys = self.seen@;
                let seen = dedupe_channel_programmes(&mut channel);
                proof {
                    lemma_programmes_of_absent(channels, added.id);
                    assert(programmes_of(more, added.id) =~= added.programmes);
                }
                self.channels.push(channel);
                self.seen.push(seen);
                self.index.insert(id, at);
                let ghost now = first_by_id(more);
                assert forall|i: int| 0 <= i < now.len() implies {
                    let all = programmes_of(more, (#[trigger] now[i]).id);
                    &&& self.channels@[i]@ == (SpecChannel {
                        programmes: deduplicated(all),
                        ..now[i]
                    })
                    &&& self.seen@[i]@ == slots(all)
                } by {
                    if i < winners.len() {
                        assert(now[i] == winners[i]);
                        assert(self.channels@[i] == held[i]);
                        assert(self.seen@[i] == keys[i]);
                        assert(has_id(channels, winners[i].id));
                    }
                }
            },
        }
    }
}

proof fn lemma_has_id_push(channels: Seq<SpecChannel>, channel: SpecChannel)
    ensures
        forall|id: Seq<char>| #[trigger]
            has_id(channels.push(channel), id) <==> has_id(channels, id) || channel.id == id,
{
    let more = channels.push(channel);
    assert forall|id: Seq<char>| has_id(channels, id) || channel.id == id implies #[trigger] has_id(
        more,
        id,
    ) by {
        if has_id(channels, id) {
            let i = choose|i: int| 0 <= i < channels.len() && (#[trigger] channels[i]).id == id;
            assert(more[i].id == id);
        } else {
            assert(more[channels.len() as int].id == id);
        }
    }
    assert forall|id: Seq<char>| #[trigger] has_id(more, id) implies has_id(channels, id)
        || channel.id == id by {
        let i = choose|i: int| 0 <= i < more.len() && (#[trigger] more[i]).id == id;
        if i < channels.len() {
            assert(channels[i].id == id);
        }
    }
}

/// The first channels by id have the ids of all channels, and no id twice.
pub proof fn lemma_first_by_id(channels: Seq<SpecChannel>)
    ensures
        forall|id: Seq<char>| #[trigger]
            has_id(first_by_id(channels), id) <==> has_id(channels, id),
        forall|i: int|
            0 <= i < first_by_id(channels).len() ==> has_id(
                channels,
                (#[trigger] first_by_id(channels)[i]).id,
            ),
        forall|i: int, j: int|
            0 <= i < j < first_by_id(channels).len() ==> (#[trigger] first_by_id(channels)[i]).id
                != (#[trigger] first_by_id(channels)[j]).id,
    decreases channels.len(),
{
    if channels.len() > 0 {
        let before = channels.drop_last();
        lemma_first_by_id(before);
        assert(channels =~= before.push(channels.last()));
        lemma_has_id_push(before, channels.last());
        if !has_id(before, channels.last().id) {
            lemma_has_id_push(first_by_id(before), channels.last());
        }
    }
}

/// An id that no channel has comes without programmes.
pub proof fn lemma_programmes_of_absent(channels: Seq<SpecChannel>, id: Seq<char>)
    requires
        !has_id(channels, id),
    ensures
        programmes_of(channels, id).len() == 0,
    decreases channels.len(),
{
    if channels.len() > 0 {
        let before = channels.drop_last();
        assert(channels =~= before.push(channels.last()));
        lemma_has_id_push(before, channels.last());
        lemma_programmes_of_absent(before, id);
    }
}

proof fn lemma_programmes_sorted(programmes: Seq<EpgProgramme>)
    ensures
        views(stable_sorted(programmes)) == stable_sorted(views(programmes)),
{
    let f = |p: EpgProgramme| p@;
    lemma_stable_sorted_map(programmes, f);
    assert(views(programmes) =~= programmes.map_values(f));
    assert(views(stable_sorted(programmes)) =~= stable_sorted(programmes).map_values(f));
}

proof fn lemma_sources_sorted(sources: Seq<(i16, Vec<EpgChannel>)>)
    ensures
        source_views(stable_sorted(sources)) == stable_sorted(source_views(sources)),
{
    let f = |s: (i16, Vec<EpgChannel>)| (s.0, views(s.1@));
    lemma_stable_sorted_map(sources, f);
    assert(source_views(sources) =~= sources.map_values(f));
    assert(source_views(stable_sorted(sources)) =~= stable_sorted(sources).map_values(f));
}

/// Merges the channels of several sources, each given with its priority.
pub fn merge_prioritized_channels(channels_by_source: Vec<(i16, Vec<EpgChannel>)>) -> (channels: Vec<
    EpgChannel,
>)
    ensures
        views(channels@) == merged_channels(source_views(channels_by_source@)),
{
    let ghost given = channels_by_source@;
    let ranked = stable_sort(channels_by_source);
    let ghost sources = source_views(ranked@);
    let ghost order = ranked@;
    proof {
        lemma_sources_sorted(given);
    }
    let mut merged = MergedChannels::new();
    for source in it: ranked
        invariant
            it.seq() == order,
            sources == source_views(order),
            merged.merges(all_channels(sources.take(it.index()))),
    {
        let ghost n = it.index();
        let ghost done = all_channels(sources.take(n));
        let ghost added = views(source.1@);
        let ghost list = source.1@;
        assert(done + added.take(0) =~= done);
        for channel in inner: source.1
            invariant
                inner.seq() == list,
                added == views(list),
                merged.merges(done + added.take(inner.index())),
        {
            let ghost m = inner.index();
            let ghost before = done + added.take(m);
            assert(added.take(m + 1) =~= added.take(m).push(channel@));
            assert(done + added.take(m + 1) =~= before.push(channel@));
            merged.add(channel, Ghost(before));
        }
        assert(added.take(added.len() as int) =~= added);
        assert(sources.take(n + 1).drop_last() =~= sources.take(n));
        assert(sources.take(n + 1).last() == sources[n]);
    }
    assert(sources.take(sources.len() as int) =~= sources);
    let ghost flat = all_channels(sources);
    let ghost winners = first_by_id(flat);
    let ghost unsorted = merged.channels@;
    let mut channels: Vec<EpgChannel> = Vec::new();
    for channel in it: merged.channels
        invariant
            it.seq() == unsorted,
            unsorted.len() == winners.len(),
            channels@.len() == it.index(),
            forall|i: int|
                0 <= i < winners.len() ==> unsorted[i]@ == (SpecChannel {
                    programmes: deduplicated(
                        programmes_of(flat, (#[trigger] winners[i]).id),
                    ),
                    ..winners[i]
                }),
            forall|i: int|
                0 <= i < it.index() ==> (#[trigger] channels@[i])@ == with_all_programmes(
                    winners[i],
                    flat,
                ),
    {
        proof {
            lemma_programmes_sorted(channel.programmes@);
            assert(channel@.id == winners[it.index() as int].id);
        }
        let programmes = stable_sort(channel.programmes);
        channels.push(
            EpgChannel { id: channel.id, title: channel.title, icon: channel.icon, programmes },
        );
    }
    assert(views(channels@) =~= merged_channels(source_views(given)));
    channels
}

} // verus!
