//! What holds of the programmes of a guide.
use crate::cache::SpecCache;
use crate::epg_merge::has_id;
use crate::external::parsed_seconds;
use crate::guide::{
    first_value, guide_of_tags, last_value, programme_added, programme_with_times,
};
use crate::guide_laws::{grew_from, law_channels_only_grow};
use crate::model::{SpecChannel, SpecProgramme};
use crate::tag::{lemma_tag_names_differ, SpecTag};
use vstd::prelude::*;

verus! {

/// The second since the Unix epoch that an attribute of a tag denotes, if it is there and can be
/// read.
pub open spec fn attribute_seconds(tag: SpecTag, name: Seq<char>) -> Option<i64> {
    match tag.attribute(name) {
        Some(text) => parsed_seconds(text, "%Y%m%d%H%M%S %z"@),
        None => None,
    }
}

/// Whether a programme has the channel, the start and the stop that a tag gives.
pub open spec fn is_described_by(programme: SpecProgramme, tag: SpecTag) -> bool {
    &&& tag.name == "programme"@
    &&& tag.attribute("channel"@) == Some(programme.channel)
    &&& attribute_seconds(tag, "start"@) == Some(programme.start)
    &&& attribute_seconds(tag, "stop"@) == Some(programme.stop)
}

/// The value of the last child of a name is that of the child behind which none has the name.
pub proof fn law_value_of_the_last_child(children: Seq<SpecTag>, name: Seq<char>, i: int)
    requires
        0 <= i < children.len(),
        children[i].name == name,
        forall|k: int| i < k < children.len() ==> (#[trigger] children[k]).name != name,
    ensures
        last_value(children, name) == children[i].value,
    decreases children.len(),
{
    if i < children.len() - 1 {
        let shorter = children.drop_last();
        assert(children.last() == children[children.len() - 1]);
        assert forall|k: int| i < k < shorter.len() implies (#[trigger] shorter[k]).name
            != name by {
            assert(shorter[k] == children[k]);
        }
        law_value_of_the_last_child(shorter, name, i);
    }
}

/// The value of the first child of a name is that of the child before which none has the name.
pub proof fn law_value_of_the_first_child(children: Seq<SpecTag>, name: Seq<char>, i: int)
    requires
        0 <= i < children.len(),
        children[i].name == name,
        forall|k: int| 0 <= k < i ==> (#[trigger] children[k]).name != name,
    ensures
        first_value(children, name) == children[i].value,
    decreases children.len(),
{
    if i > 0 {
        let rest = children.skip(1);
        assert(children[0].name != name);
        assert forall|k: int| 0 <= k < i - 1 implies (#[trigger] rest[k]).name != name by {
            assert(rest[k] == children[k + 1]);
        }
        law_value_of_the_first_child(rest, name, i - 1);
    }
}

/// Without a child of a name there is no value for it.
pub proof fn law_no_child_has_the_name(children: Seq<SpecTag>, name: Seq<char>)
    requires
        forall|k: int| 0 <= k < children.len() ==> (#[trigger] children[k]).name != name,
    ensures
        first_value(children, name) is None,
        last_value(children, name) is None,
    decreases children.len(),
{
    if children.len() > 0 {
        let rest = children.skip(1);
        let shorter = children.drop_last();
        assert(children[0].name != name);
        assert(children.last() == children[children.len() - 1]);
        assert forall|k: int| 0 <= k < rest.len() implies (#[trigger] rest[k]).name != name by {
            assert(rest[k] == children[k + 1]);
        }
        assert forall|k: int| 0 <= k < shorter.len() implies (#[trigger] shorter[k]).name
            != name by {
            assert(shorter[k] == children[k]);
        }
        law_no_child_has_the_name(rest, name);
        law_no_child_has_the_name(shorter, name);
    }
}

/// A tag describes a programme exactly if both of its times are known. The programme then has
/// these times, and the title and the description that the tag holds.
pub proof fn law_times_of_a_programme(
    tag: SpecTag,
    id: Seq<char>,
    start: Option<i64>,
    stop: Option<i64>,
)
    ensures
        programme_with_times(tag, id, start, stop) is Some <==> start is Some && stop is Some,
        programme_with_times(tag, id, start, stop) matches Some(programme) ==> {
            &&& start == Some(programme.start)
            &&& stop == Some(programme.stop)
            &&& programme.channel == id
            &&& programme.title == last_value(tag.child_tags(), "title"@)
            &&& programme.desc == last_value(tag.child_tags(), "desc"@)
        },
{
}

/// A tag whose start and stop can be read adds a programme with these times to the channel that it
/// names, behind those that the channel has. Nothing else changes.
pub proof fn law_programme_is_added(
    channels: Seq<SpecChannel>,
    tag: SpecTag,
    start: i64,
    stop: i64,
    i: int,
)
    requires
        0 <= i < channels.len(),
        tag.attribute("channel"@) == Some(channels[i].id),
        attribute_seconds(tag, "start"@) == Some(start),
        attribute_seconds(tag, "stop"@) == Some(stop),
    ensures
        ({
            let after = programme_added(channels, tag);
            let programme = after[i].programmes.last();
            &&& after.len() == channels.len()
            &&& after[i].programmes.len() == channels[i].programmes.len() + 1
            &&& after[i].programmes.drop_last() == channels[i].programmes
            &&& programme.start == start
            &&& programme.stop == stop
            &&& programme.channel == channels[i].id
            &&& programme.title == last_value(tag.child_tags(), "title"@)
            &&& programme.desc == last_value(tag.child_tags(), "desc"@)
            &&& after[i].id == channels[i].id
            &&& after[i].title == channels[i].title
            &&& after[i].icon == channels[i].icon
            &&& forall|k: int|
                0 <= k < channels.len() && channels[k].id != channels[i].id ==> #[trigger] after[k]
                    == channels[k]
        }),
{
    assert(has_id(channels, channels[i].id));
    let after = programme_added(channels, tag);
    assert(after[i].programmes.drop_last() =~= channels[i].programmes);
}

/// A tag changes nothing if a time of it cannot be read or if it names no channel that is there.
pub proof fn law_no_programme_is_added(channels: Seq<SpecChannel>, tag: SpecTag)
    requires
        attribute_seconds(tag, "start"@) is None || attribute_seconds(tag, "stop"@) is None
            || tag.attribute("channel"@) is None || forall|i: int|
            0 <= i < channels.len() ==> Some((#[trigger] channels[i]).id) != tag.attribute(
                "channel"@,
            ),
    ensures
        programme_added(channels, tag) == channels,
{
}

/// Whether some tag gives a programme its channel, its start and its stop.
pub open spec fn is_described(programme: SpecProgramme, tags: Seq<SpecTag>) -> bool {
    exists|t: int| 0 <= t < tags.len() && is_described_by(programme, #[trigger] tags[t])
}

/// Every programme of a guide has its channel, its start and its stop from a tag.
pub proof fn law_programmes_come_from_tags(
    cache: SpecCache,
    tags: Seq<SpecTag>,
    smart_match: bool,
    fuzzy_matching: bool,
)
    ensures
        ({
            let channels = guide_of_tags(cache, tags, smart_match, fuzzy_matching).channels;
            forall|i: int, j: int|
                0 <= i < channels.len() && 0 <= j < channels[i].programmes.len() ==> is_described(
                    #[trigger] channels[i].programmes[j],
                    tags,
                )
        }),
    decreases tags.len(),
{
    if tags.len() > 0 {
        let shorter = tags.drop_last();
        law_programmes_come_from_tags(cache, shorter, smart_match, fuzzy_matching);
        lemma_tag_names_differ();
        let before = guide_of_tags(cache, shorter, smart_match, fuzzy_matching).channels;
        let after = guide_of_tags(cache, tags, smart_match, fuzzy_matching).channels;
        assert forall|i: int, j: int|
            0 <= i < after.len() && 0 <= j < after[i].programmes.len() implies is_described(
            #[trigger] after[i].programmes[j],
            tags,
        ) by {
            let programme = after[i].programmes[j];
            if i < before.len() && j < before[i].programmes.len() {
                assert(programme == before[i].programmes[j]);
                assert(is_described(before[i].programmes[j], shorter));
                let t = choose|t: int|
                    0 <= t < shorter.len() && is_described_by(programme, #[trigger] shorter[t]);
                assert(tags[t] == shorter[t]);
            } else {
                assert(is_described_by(programme, tags[tags.len() - 1]));
            }
        }
    }
}

/// Every tag of a channel that is there and whose start and stop can be read gives a programme with
/// these times, whatever follows.
pub proof fn law_every_tag_gives_its_programme(
    cache: SpecCache,
    tags: Seq<SpecTag>,
    tag: SpecTag,
    more: Seq<SpecTag>,
    smart_match: bool,
    fuzzy_matching: bool,
    start: i64,
    stop: i64,
    i: int,
) -> (j: int)
    requires
        tag.name == "programme"@,
        attribute_seconds(tag, "start"@) == Some(start),
        attribute_seconds(tag, "stop"@) == Some(stop),
        0 <= i < guide_of_tags(cache, tags, smart_match, fuzzy_matching).channels.len(),
        tag.attribute("channel"@) == Some(
            guide_of_tags(cache, tags, smart_match, fuzzy_matching).channels[i].id,
        ),
    ensures
        ({
            let channels = guide_of_tags(
                cache,
                tags.push(tag) + more,
                smart_match,
                fuzzy_matching,
            ).channels;
            &&& i < channels.len()
            &&& tag.attribute("channel"@) == Some(channels[i].id)
            &&& 0 <= j < channels[i].programmes.len()
            &&& channels[i].programmes[j].start == start
            &&& channels[i].programmes[j].stop == stop
        }),
{
    lemma_tag_names_differ();
    let before = guide_of_tags(cache, tags, smart_match, fuzzy_matching);
    let with_tag = tags.push(tag);
    assert(with_tag.drop_last() =~= tags);
    assert(with_tag.last() == tag);
    let middle = guide_of_tags(cache, with_tag, smart_match, fuzzy_matching).channels;
    assert(middle == programme_added(before.channels, tag));
    law_programme_is_added(before.channels, tag, start, stop, i);
    law_channels_only_grow(cache, with_tag, more, smart_match, fuzzy_matching);
    let after = guide_of_tags(cache, with_tag + more, smart_match, fuzzy_matching).channels;
    assert(grew_from(after[i], middle[i]));
    let j = middle[i].programmes.len() - 1;
    assert(after[i].programmes.subrange(0, middle[i].programmes.len() as int)
        =~= middle[i].programmes);
    assert(after[i].programmes.subrange(0, middle[i].programmes.len() as int)[j]
        == after[i].programmes[j]);
    j
}

} // verus!
