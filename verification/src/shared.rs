//! Guides whose channels may be in use elsewhere.
use crate::external::take_channel;
use crate::model::{view_option, views, Attributes, Epg, EpgChannel, SpecChannel, SpecEpg, TVGuide};
use crate::tvguide::merged_guide;
use std::sync::Arc;
use vstd::prelude::*;

verus! {

/// A guide whose channels may be in use elsewhere.
pub struct SharedEpg {
    pub logo_override: bool,
    pub priority: i16,
    pub attributes: Option<Attributes>,
    pub children: Vec<Arc<EpgChannel>>,
}

impl View for SharedEpg {
    type V = SpecEpg;

    open spec fn view(&self) -> SpecEpg {
        SpecEpg {
            logo_override: self.logo_override,
            priority: self.priority,
            attributes: view_option(self.attributes),
            children: views(self.children@),
        }
    }
}

/// The channels that are there, in their order.
pub open spec fn present(channels: Seq<Option<SpecChannel>>) -> Seq<SpecChannel>
    decreases channels.len(),
{
    if channels.len() == 0 {
        Seq::empty()
    } else {
        match channels.last() {
            Some(channel) => present(channels.drop_last()).push(channel),
            None => present(channels.drop_last()),
        }
    }
}

/// Channels that may be missing, as mathematical values.
pub open spec fn option_views(channels: Seq<Option<EpgChannel>>) -> Seq<Option<SpecChannel>> {
    Seq::new(channels.len(), |i: int| view_option(channels[i]))
}

/// Whether each of `taken` is the channel in its place, or missing.
pub open spec fn taken_from(taken: Seq<Option<SpecChannel>>, channels: Seq<SpecChannel>) -> bool {
    &&& taken.len() == channels.len()
    &&& forall|i: int|
        0 <= i < taken.len() ==> (#[trigger] taken[i] is None || taken[i] == Some(channels[i]))
}

/// Whether a guide is what is left of another one once channels that are in use elsewhere are
/// left out.
pub open spec fn is_left_of(left: SpecEpg, whole: SpecEpg) -> bool {
    &&& left.logo_override == whole.logo_override
    &&& left.priority == whole.priority
    &&& left.attributes == whole.attributes
    &&& exists|taken: Seq<Option<SpecChannel>>|
        taken_from(taken, whole.children) && left.children == #[trigger] present(taken)
}

/// Whether guides are what is left of other ones, each of the one in its place.
pub open spec fn are_left_of(left: Seq<SpecEpg>, whole: Seq<SpecEpg>) -> bool {
    &&& left.len() == whole.len()
    &&& forall|i: int| 0 <= i < left.len() ==> is_left_of(#[trigger] left[i], whole[i])
}

/// Whether `taken` is what came of taking a channel out of where it may be in use elsewhere too.
pub closed spec fn came_out(channel: Arc<EpgChannel>, taken: Option<EpgChannel>) -> bool {
    call_ensures(take_channel, (channel,), taken)
}

/// Whether each of `taken` is what came of taking out the channel in its place.
pub open spec fn all_came_out(
    channels: Seq<Arc<EpgChannel>>,
    taken: Seq<Option<EpgChannel>>,
) -> bool {
    &&& taken.len() == channels.len()
    &&& forall|i: int| 0 <= i < taken.len() ==> came_out(channels[i], #[trigger] taken[i])
}

/// What comes out is the channel, or it is missing.
pub proof fn law_what_comes_out(channels: Seq<Arc<EpgChannel>>, taken: Seq<Option<EpgChannel>>)
    requires
        all_came_out(channels, taken),
    ensures
        taken_from(option_views(taken), views(channels)),
{
    assert forall|i: int| 0 <= i < taken.len() implies (#[trigger] option_views(taken)[i] is None
        || option_views(taken)[i] == Some(views(channels)[i])) by {
        assert(came_out(channels[i], taken[i]));
    }
}

/// Calls `take` with each channel.
fn take_each<F: Fn(Arc<EpgChannel>) -> Option<EpgChannel>>(
    take: F,
    channels: Vec<Arc<EpgChannel>>,
) -> (taken: Vec<Option<EpgChannel>>)
    requires
        forall|i: int| 0 <= i < channels@.len() ==> call_requires(take, (#[trigger] channels@[i],)),
    ensures
        taken@.len() == channels@.len(),
        forall|i: int|
            0 <= i < taken@.len() ==> call_ensures(take, (channels@[i],), #[trigger] taken@[i]),
{
    let ghost given = channels@;
    let mut taken: Vec<Option<EpgChannel>> = Vec::new();
    for channel in it: channels
        invariant
            it.seq() == given,
            forall|i: int| 0 <= i < given.len() ==> call_requires(take, (#[trigger] given[i],)),
            taken@.len() == it.index(),
            forall|i: int|
                0 <= i < taken@.len() ==> call_ensures(take, (given[i],), #[trigger] taken@[i]),
    {
        assert(channel == given[it.index()]);
        let one = take(channel);
        taken.push(one);
    }
    taken
}

/// Leaves out the channels that are missing.
pub fn present_channels(channels: Vec<Option<EpgChannel>>) -> (found: Vec<EpgChannel>)
    ensures
        views(found@) == present(option_views(channels@)),
{
    let ghost all = option_views(channels@);
    let ghost given = channels@;
    let mut found: Vec<EpgChannel> = Vec::new();
    assert(views(found@) =~= Seq::<SpecChannel>::empty());
    for each in it: channels
        invariant
            it.seq() == given,
            all == option_views(given),
            views(found@) == present(all.take(it.index())),
    {
        assert(all.take(it.index() + 1).drop_last() =~= all.take(it.index()));
        assert(all.take(it.index() + 1).last() == view_option(each));
        if let Some(channel) = each {
            let ghost before = found@;
            found.push(channel);
            assert(views(found@) =~= views(before).push(channel@));
        }
    }
    assert(all.take(all.len() as int) =~= all);
    found
}

/// Whether a guide is what is left of a shared one: the same but for its channels, which are those
/// that came out when each was taken out.
pub open spec fn guide_came_out(left: SpecEpg, shared: SharedEpg) -> bool {
    &&& left.logo_override == shared@.logo_override
    &&& left.priority == shared@.priority
    &&& left.attributes == shared@.attributes
    &&& exists|taken: Seq<Option<EpgChannel>>| #[trigger]
        all_came_out(shared.children@, taken) && left.children == present(option_views(taken))
}

/// Whether guides are what is left of shared ones, each of the one in its place.
pub open spec fn guides_came_out(left: Seq<SpecEpg>, shared: Seq<SharedEpg>) -> bool {
    &&& left.len() == shared.len()
    &&& forall|i: int| 0 <= i < left.len() ==> guide_came_out(#[trigger] left[i], shared[i])
}

impl SharedEpg {
    /// The guide without the channels that are in use elsewhere. Which ones are is not known here;
    /// [`present_channels`] leaves them out.
    pub fn into_epg(self) -> (epg: Epg)
        ensures
            is_left_of(epg@, self@),
            guide_came_out(epg@, self),
    {
        let ghost given = self.children@;
        let taken = take_each(take_channel, self.children);
        let ghost witness = taken@;
        let children = present_channels(taken);
        let epg = Epg {
            logo_override: self.logo_override,
            priority: self.priority,
            attributes: self.attributes,
            children,
        };
        proof {
            assert(all_came_out(given, witness)) by {
                assert forall|i: int| 0 <= i < witness.len() implies came_out(
                    given[i],
                    #[trigger] witness[i],
                ) by {}
            }
            law_what_comes_out(given, witness);
            let views_taken = option_views(witness);
            assert(taken_from(views_taken, self@.children) && epg@.children == present(
                views_taken,
            ));
        }
        epg
    }
}

impl TVGuide {
    /// Merges guides whose channels may be in use elsewhere into one; channels that are, are left
    /// out.
    pub fn merge_shared(epgs: Vec<SharedEpg>) -> (merged: Option<Epg>)
        ensures
            exists|left: Seq<SpecEpg>| #[trigger]
                are_left_of(left, views(epgs@)) && guides_came_out(left, epgs@) && view_option(
                    merged,
                ) == merged_guide(left),
            merged is None <==> epgs@.len() == 0,
    {
        let ghost given = epgs@;
        let ghost whole = views(epgs@);
        let mut owned: Vec<Epg> = Vec::new();
        for epg in it: epgs
            invariant
                it.seq() == given,
                whole == views(given),
                are_left_of(views(owned@), whole.take(it.index())),
                guides_came_out(views(owned@), given.take(it.index())),
        {
            let ghost before = views(owned@);
            assert(epg == given[it.index()]);
            let left = epg.into_epg();
            owned.push(left);
            proof {
                let after = views(owned@);
                assert(after =~= before.push(left@));
                assert forall|i: int| 0 <= i < after.len() implies is_left_of(
                    #[trigger] after[i],
                    whole.take(it.index() + 1)[i],
                ) by {
                    if i < before.len() {
                        assert(is_left_of(before[i], whole.take(it.index())[i]));
                    }
                }
                assert forall|i: int| 0 <= i < after.len() implies guide_came_out(
                    #[trigger] after[i],
                    given.take(it.index() + 1)[i],
                ) by {
                    if i < before.len() {
                        assert(guide_came_out(before[i], given.take(it.index())[i]));
                    }
                }
            }
        }
        assert(whole.take(whole.len() as int) =~= whole);
        assert(given.take(given.len() as int) =~= given);
        assert(are_left_of(views(owned@), whole));
        Self::merge(owned)
    }
}

/// If no channel is in use elsewhere, none is left out.
pub proof fn law_nothing_is_left_out(taken: Seq<Option<SpecChannel>>, channels: Seq<SpecChannel>)
    requires
        taken_from(taken, channels),
        forall|i: int| 0 <= i < taken.len() ==> #[trigger] taken[i] is Some,
    ensures
        present(taken) == channels,
    decreases taken.len(),
{
    if taken.len() > 0 {
        let shorter = taken.drop_last();
        assert forall|i: int| 0 <= i < shorter.len() implies shorter[i] == taken[i] by {}
        assert forall|i: int| 0 <= i < shorter.len() implies (#[trigger] shorter[i] is None
            || shorter[i] == Some(channels.drop_last()[i])) by {
            assert(taken[i] is Some);
        }
        law_nothing_is_left_out(shorter, channels.drop_last());
        assert(taken[taken.len() - 1] is Some);
        assert(channels =~= channels.drop_last().push(channels.last()));
    } else {
        assert(present(taken) =~= channels);
    }
}

/// A channel that is there counts, one that is missing does not, and those that count keep their
/// order.
pub proof fn law_channels_that_are_there(
    channel: SpecChannel,
    first: Seq<Option<SpecChannel>>,
    second: Seq<Option<SpecChannel>>,
)
    ensures
        present(seq![Some(channel)]) == seq![channel],
        present(seq![None::<SpecChannel>]).len() == 0,
        present(first + second) == present(first) + present(second),
    decreases second.len(),
{
    let one = seq![Some(channel)];
    let none = seq![None::<SpecChannel>];
    assert(one.drop_last() =~= Seq::<Option<SpecChannel>>::empty());
    assert(none.drop_last() =~= Seq::<Option<SpecChannel>>::empty());
    assert(present(one.drop_last()) =~= Seq::<SpecChannel>::empty());
    assert(present(none.drop_last()) =~= Seq::<SpecChannel>::empty());
    assert(present(one) =~= seq![channel]);
    if second.len() == 0 {
        assert(first + second =~= first);
        assert(present(first) + present(second) =~= present(first));
    } else {
        law_channels_that_are_there(channel, first, second.drop_last());
        assert((first + second).drop_last() =~= first + second.drop_last());
        assert((first + second).last() == second.last());
        assert(present(first + second) =~= present(first) + present(second));
    }
}

} // verus!
