//! What holds of loading the guides of an input.
use crate::config::SpecInput;
use crate::epg_load::{
    load_after, load_sources, load_start, SpecEpgLoad, SpecLoadAction, SpecLoadEvent,
};
use crate::epg_merge::merged_channels;
use crate::model::SpecChannel;
use crate::provider::url_with_input;
use vstd::prelude::*;

verus! {

/// Loading begins with the sources of the input, in their order, each with its own priority and
/// its URL as the input resolves it. Nothing is loaded then and nothing has failed.
pub proof fn law_loading_begins_with_the_sources(input: SpecInput)
    ensures
        ({
            let start = load_start(input);
            &&& start.loaded.len() == 0
            &&& start.failed == 0
            &&& input.epg is None ==> start.pending.len() == 0
            &&& input.epg is Some ==> {
                let sources = input.epg->0;
                &&& start.pending.len() == sources.len()
                &&& forall|i: int|
                    0 <= i < sources.len() ==> (#[trigger] start.pending[i]).0
                        == sources[i].priority && start.pending[i].1 == url_with_input(
                        input,
                        sources[i].url,
                    )
            }
            &&& start.pending.len() == 0 ==> start.action() == SpecLoadAction::Finish
            &&& start.pending.len() > 0 ==> start.action() == SpecLoadAction::Locate(
                start.pending[0].1,
            )
        }),
{
}

/// What is read for a source, from its file or from its URL, is loaded: behind what was loaded
/// before stand the priority of the source and exactly the channels that were read. The next
/// source is the one behind it.
pub proof fn law_read_channels_are_loaded(load: SpecEpgLoad, channels: Seq<SpecChannel>)
    requires
        load.action() is ParseFile || load.action() is Fetch,
    ensures
        ({
            let after = load.after(SpecLoadEvent::Parsed(channels));
            &&& after.loaded == load.loaded.push((load.pending[0].0, channels))
            &&& after.failed == load.failed
            &&& after.pending == load.pending.skip(1)
            &&& load.pending.len() > 1 ==> after.action() == SpecLoadAction::Locate(
                load.pending[1].1,
            )
            &&& load.pending.len() == 1 ==> after.action() == SpecLoadAction::Finish
        }),
{
}

/// Nothing is loaded but what was read for a source: any other event leaves alone what was loaded.
pub proof fn law_only_read_channels_are_loaded(load: SpecEpgLoad, event: SpecLoadEvent)
    requires
        event is Parsed ==> load.action() is Locate || load.action() is Finish,
    ensures
        load.after(event).loaded == load.loaded,
{
}

/// A file that is there is read; without one, the URL is.
pub proof fn law_file_is_read_if_it_is_there(load: SpecEpgLoad, exists: bool)
    requires
        load.action() is Locate,
    ensures
        ({
            let after = load.after(SpecLoadEvent::Located(exists));
            &&& load.action() == SpecLoadAction::Locate(load.pending[0].1)
            &&& exists ==> after.action() == SpecLoadAction::ParseFile
            &&& !exists ==> after.action() == SpecLoadAction::Fetch(load.pending[0].1)
            &&& after.pending == load.pending
            &&& after.failed == load.failed
        }),
{
}

/// A source counts as failed exactly if there is no place for its file or if its URL cannot be
/// read; the next source is then the one behind it.
pub proof fn law_failed_source_is_counted(load: SpecEpgLoad, event: SpecLoadEvent)
    ensures
        ({
            let after = load.after(event);
            let fails = (load.action() is Locate && event is LocateFailed) || (
            load.action() is Fetch && event is ParseFailed);
            &&& after.failed == load.failed + if fails {
                1int
            } else {
                0
            }
            &&& fails ==> after.pending == load.pending.skip(1)
            &&& fails && load.pending.len() > 1 ==> after.action() == SpecLoadAction::Locate(
                load.pending[1].1,
            )
            &&& fails && load.pending.len() == 1 ==> after.action() == SpecLoadAction::Finish
        }),
{
}

/// An event that answers nothing that was to be done changes nothing.
pub proof fn law_other_events_change_nothing(load: SpecEpgLoad, event: SpecLoadEvent)
    requires
        load.action() is Locate ==> event is Parsed || event is ParseFailed,
        load.action() is ParseFile || load.action() is Fetch ==> event is Located
            || event is LocateFailed,
    ensures
        load.after(event) == load,
{
}

/// Whether an entry holds the priority of the `s`-th source and the channels of the `e`-th event.
pub open spec fn came_from(
    entry: (i16, Seq<SpecChannel>),
    sources: Seq<(i16, Seq<char>)>,
    events: Seq<SpecLoadEvent>,
    s: int,
    e: int,
) -> bool {
    &&& 0 <= s < sources.len()
    &&& 0 <= e < events.len()
    &&& entry.0 == sources[s].0
    &&& events[e] == SpecLoadEvent::Parsed(entry.1)
}

/// Whether an entry holds the priority of a source and the channels of an event.
pub open spec fn was_read(
    entry: (i16, Seq<SpecChannel>),
    sources: Seq<(i16, Seq<char>)>,
    events: Seq<SpecLoadEvent>,
) -> bool {
    exists|s: int, e: int| came_from(entry, sources, events, s, e)
}

/// Whatever happens, each entry of what was loaded holds the priority of a source and exactly the
/// channels that were read in one event, and the sources that are left are the last ones.
pub proof fn law_loaded_entries_were_read(input: SpecInput, events: Seq<SpecLoadEvent>)
    ensures
        ({
            let load = load_after(load_start(input), events);
            let sources = load_sources(input);
            &&& load.pending.len() <= sources.len()
            &&& load.pending == sources.skip(sources.len() - load.pending.len())
            &&& forall|j: int|
                0 <= j < load.loaded.len() ==> was_read(
                    #[trigger] load.loaded[j],
                    sources,
                    events,
                )
        }),
    decreases events.len(),
{
    let sources = load_sources(input);
    let load = load_after(load_start(input), events);
    if events.len() == 0 {
        assert(sources.skip(0) =~= sources);
    } else {
        let earlier = events.drop_last();
        let before = load_after(load_start(input), earlier);
        law_loaded_entries_were_read(input, earlier);
        let skipped = sources.len() - before.pending.len();
        if before.pending.len() > 0 {
            assert(sources.skip(skipped).skip(1) =~= sources.skip(skipped + 1));
            assert(before.pending[0] == sources[skipped]);
        }
        assert(load.pending == before.pending || load.pending == before.pending.skip(1));
        assert(load.pending =~= sources.skip(sources.len() - load.pending.len()));
        assert forall|j: int| 0 <= j < load.loaded.len() implies was_read(
            #[trigger] load.loaded[j],
            sources,
            events,
        ) by {
            if j < before.loaded.len() {
                assert(load.loaded[j] == before.loaded[j]);
                let (s, e) = choose|s: int, e: int|
                    came_from(before.loaded[j], sources, earlier, s, e);
                assert(came_from(load.loaded[j], sources, events, s, e));
            } else {
                assert(came_from(load.loaded[j], sources, events, skipped, events.len() - 1));
            }
        }
    }
}

/// What was loaded is merged; without anything loaded it is a failure with the number of failed
/// sources, or nothing if none failed.
pub proof fn law_result_is_merged(load: SpecEpgLoad)
    ensures
        load.loaded.len() > 0 ==> load.result() == Ok::<Option<Seq<SpecChannel>>, nat>(
            Some(merged_channels(load.loaded)),
        ),
        load.loaded.len() == 0 && load.failed > 0 ==> load.result() == Err::<
            Option<Seq<SpecChannel>>,
            nat,
        >(load.failed),
        load.loaded.len() == 0 && load.failed == 0 ==> load.result() == Ok::<
            Option<Seq<SpecChannel>>,
            nat,
        >(None),
{
}

} // verus!
