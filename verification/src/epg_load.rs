//! Loading the guides of an input.
use crate::config::{ConfigInput, SpecInput};
use crate::epg_merge::{merge_prioritized_channels, merged_channels, source_views};
use crate::model::{views, EpgChannel, SpecChannel};
use crate::numbers::{decimal, to_decimal};
use crate::provider::{resolve_provider_url_with_input, url_with_input};
use vstd::prelude::*;
use vstd::string::*;

verus! {

/// What is tried next for a source.
#[derive(Clone, Copy, PartialEq, Eq, Structural, Debug)]
pub enum LoadStage {
    /// Where its file would be.
    Locate,
    /// What the file holds.
    File,
    /// What its URL gives.
    Fetch,
}

/// What is to be done next.
pub enum EpgLoadAction {
    /// Find out where the file for this URL would be, and whether it is there.
    Locate(String),
    /// Read the guide out of the file that was found.
    ParseFile,
    /// Read the guide from this URL.
    Fetch(String),
    /// Nothing is left to be done.
    Finish,
}

/// An [`EpgLoadAction`] as a mathematical value.
pub enum SpecLoadAction {
    Locate(Seq<char>),
    ParseFile,
    Fetch(Seq<char>),
    Finish,
}

impl View for EpgLoadAction {
    type V = SpecLoadAction;

    open spec fn view(&self) -> SpecLoadAction {
        match *self {
            EpgLoadAction::Locate(url) => SpecLoadAction::Locate(url@),
            EpgLoadAction::ParseFile => SpecLoadAction::ParseFile,
            EpgLoadAction::Fetch(url) => SpecLoadAction::Fetch(url@),
            EpgLoadAction::Finish => SpecLoadAction::Finish,
        }
    }
}

/// What came of an action.
pub enum EpgLoadEvent {
    /// The place of the file is known; whether the file is there.
    Located(bool),
    /// There is no place for the file.
    LocateFailed,
    /// A guide was read.
    Parsed(Vec<EpgChannel>),
    /// No guide could be read.
    ParseFailed,
}

/// An [`EpgLoadEvent`] as a mathematical value.
pub enum SpecLoadEvent {
    Located(bool),
    LocateFailed,
    Parsed(Seq<SpecChannel>),
    ParseFailed,
}

impl View for EpgLoadEvent {
    type V = SpecLoadEvent;

    open spec fn view(&self) -> SpecLoadEvent {
        match *self {
            EpgLoadEvent::Located(exists) => SpecLoadEvent::Located(exists),
            EpgLoadEvent::LocateFailed => SpecLoadEvent::LocateFailed,
            EpgLoadEvent::Parsed(channels) => SpecLoadEvent::Parsed(views(channels@)),
            EpgLoadEvent::ParseFailed => SpecLoadEvent::ParseFailed,
        }
    }
}

/// An [`EpgLoad`] as a mathematical value: the sources that are left, the first of them being
/// tried; what is tried for it; what was loaded; and how many sources failed.
pub struct SpecEpgLoad {
    pub pending: Seq<(i16, Seq<char>)>,
    pub stage: LoadStage,
    pub loaded: Seq<(i16, Seq<SpecChannel>)>,
    pub failed: nat,
}

impl SpecEpgLoad {
    /// The next source, after the one that is being tried has failed.
    pub open spec fn skipped(self) -> SpecEpgLoad {
        SpecEpgLoad {
            pending: self.pending.skip(1),
            stage: LoadStage::Locate,
            failed: self.failed + 1,
            ..self
        }
    }

    /// The next source, after the one that is being tried gave these channels.
    pub open spec fn with_channels(self, channels: Seq<SpecChannel>) -> SpecEpgLoad {
        SpecEpgLoad {
            pending: self.pending.skip(1),
            stage: LoadStage::Locate,
            loaded: self.loaded.push((self.pending[0].0, channels)),
            ..self
        }
    }

    /// After an event. One that does not answer what was to be done changes nothing.
    pub open spec fn after(self, event: SpecLoadEvent) -> SpecEpgLoad {
        if self.pending.len() == 0 {
            self
        } else {
            match (self.stage, event) {
                (LoadStage::Locate, SpecLoadEvent::Located(exists)) => SpecEpgLoad {
                    stage: if exists {
                        LoadStage::File
                    } else {
                        LoadStage::Fetch
                    },
                    ..self
                },
                (LoadStage::Locate, SpecLoadEvent::LocateFailed) => self.skipped(),
                (LoadStage::File, SpecLoadEvent::Parsed(channels)) => self.with_channels(channels),
                (LoadStage::File, SpecLoadEvent::ParseFailed) => SpecEpgLoad {
                    stage: LoadStage::Fetch,
                    ..self
                },
                (LoadStage::Fetch, SpecLoadEvent::Parsed(channels)) => self.with_channels(channels),
                (LoadStage::Fetch, SpecLoadEvent::ParseFailed) => self.skipped(),
                _ => self,
            }
        }
    }

    /// What is to be done next.
    pub open spec fn action(self) -> SpecLoadAction {
        if self.pending.len() == 0 {
            SpecLoadAction::Finish
        } else {
            match self.stage {
                LoadStage::Locate => SpecLoadAction::Locate(self.pending[0].1),
                LoadStage::File => SpecLoadAction::ParseFile,
                LoadStage::Fetch => SpecLoadAction::Fetch(self.pending[0].1),
            }
        }
    }

    /// The channels of all that was loaded. Without any, it is a failure if a source failed, with
    /// the number of those that did.
    pub open spec fn result(self) -> Result<Option<Seq<SpecChannel>>, nat> {
        if self.loaded.len() > 0 {
            Ok(Some(merged_channels(self.loaded)))
        } else if self.failed > 0 {
            Err(self.failed)
        } else {
            Ok(None)
        }
    }
}

/// The guide sources of an input, with the URLs that they are loaded from.
pub open spec fn load_sources(input: SpecInput) -> Seq<(i16, Seq<char>)> {
    match input.epg {
        Some(sources) => Seq::new(
            sources.len(),
            |i: int| (sources[i].priority, url_with_input(input, sources[i].url)),
        ),
        None => Seq::empty(),
    }
}

/// How loading begins.
pub open spec fn load_start(input: SpecInput) -> SpecEpgLoad {
    SpecEpgLoad {
        pending: load_sources(input),
        stage: LoadStage::Locate,
        loaded: Seq::empty(),
        failed: 0,
    }
}

/// Sources as mathematical values, from `from` on.
pub open spec fn pending_views(sources: Seq<(i16, String)>, from: int) -> Seq<(i16, Seq<char>)> {
    Seq::new(
        (sources.len() - from) as nat,
        |i: int| (sources[from + i].0, sources[from + i].1@),
    )
}

/// That all guides of an input failed.
pub struct EpgLoadError {
    pub failed_sources: usize,
    pub input_name: String,
}

/// How the message about failed guides begins.
pub const ALL_FAILED: &'static str = "All ";

/// How the message about failed guides goes on.
pub const SOURCES_FAILED: &'static str = " EPG source(s) failed for input '";

/// How the message about failed guides ends.
pub const END_OF_NAME: &'static str = "'";

impl EpgLoadError {
    /// The message for the log.
    pub fn message(&self) -> (text: String)
        ensures
            text@ == ALL_FAILED@ + decimal(self.failed_sources as nat) + SOURCES_FAILED@
                + self.input_name@ + END_OF_NAME@,
    {
        let mut text = ALL_FAILED.to_owned();
        text.append(to_decimal(self.failed_sources as u64).as_str());
        text.append(SOURCES_FAILED);
        text.append(self.input_name.as_str());
        text.append(END_OF_NAME);
        text
    }
}

/// The loading of the guides of an input, one source after the other. The caller does what
/// [`EpgLoad::action`] says and tells [`EpgLoad::advance`] what came of it.
pub struct EpgLoad {
    sources: Vec<(i16, String)>,
    next: usize,
    stage: LoadStage,
    loaded: Vec<(i16, Vec<EpgChannel>)>,
    failed: usize,
}

impl View for EpgLoad {
    type V = SpecEpgLoad;

    closed spec fn view(&self) -> SpecEpgLoad {
        SpecEpgLoad {
            pending: pending_views(self.sources@, self.next as int),
            stage: self.stage,
            loaded: source_views(self.loaded@),
            failed: self.failed as nat,
        }
    }
}

impl EpgLoad {
    /// Whether every source is counted once: as loaded, as failed, or as one that is left.
    pub closed spec fn well_formed(&self) -> bool {
        &&& self.next <= self.sources.len()
        &&& self.loaded@.len() + self.failed == self.next
    }

    /// Begins to load the guides of an input.
    pub fn new(input: &ConfigInput) -> (load: EpgLoad)
        ensures
            load.well_formed(),
            load@ == load_start(input@),
    {
        let mut sources: Vec<(i16, String)> = Vec::new();
        if let Some(epg) = &input.epg {
            for i in 0..epg.sources.len()
                invariant
                    input@.epg == Some(views(epg.sources@)),
                    pending_views(sources@, 0) == load_sources(input@).take(i as int),
            {
                let ghost before = sources@;
                let source = &epg.sources[i];
                let url = resolve_provider_url_with_input(input, source.url.as_str());
                sources.push((source.priority, url));
                assert(load_sources(input@)[i as int] == (source.priority, url@));
                assert(pending_views(sources@, 0) =~= pending_views(before, 0).push(
                    (source.priority, url@),
                ));
                assert(pending_views(sources@, 0) =~= load_sources(input@).take(i + 1));
            }
        }
        assert(pending_views(sources@, 0) =~= load_sources(input@));
        let load = EpgLoad {
            sources,
            next: 0,
            stage: LoadStage::Locate,
            loaded: Vec::new(),
            failed: 0,
        };
        assert(source_views(load.loaded@) =~= Seq::<(i16, Seq<SpecChannel>)>::empty());
        load
    }

    /// What is to be done next.
    pub fn action(&self) -> (action: EpgLoadAction)
        requires
            self.well_formed(),
        ensures
            action@ == self@.action(),
    {
        if self.next == self.sources.len() {
            return EpgLoadAction::Finish;
        }
        assert(self@.pending[0].1 == self.sources@[self.next as int].1@);
        match self.stage {
            LoadStage::Locate => EpgLoadAction::Locate(self.sources[self.next].1.clone()),
            LoadStage::File => EpgLoadAction::ParseFile,
            LoadStage::Fetch => EpgLoadAction::Fetch(self.sources[self.next].1.clone()),
        }
    }

    /// Goes on to the next source, as the one that is being tried has failed.
    fn skip_source(&mut self)
        requires
            old(self).well_formed(),
            old(self)@.pending.len() > 0,
        ensures
            final(self).well_formed(),
            final(self)@ == old(self)@.skipped(),
    {
        self.next = self.next + 1;
        self.failed = self.failed + 1;
        self.stage = LoadStage::Locate;
        assert(self@.pending =~= old(self)@.pending.skip(1));
    }

    /// Goes on to the next source, as the one that is being tried gave these channels.
    fn add_channels(&mut self, channels: Vec<EpgChannel>)
        requires
            old(self).well_formed(),
            old(self)@.pending.len() > 0,
        ensures
            final(self).well_formed(),
            final(self)@ == old(self)@.with_channels(views(channels@)),
    {
        let priority: i16 = self.sources[self.next].0;
        self.next = self.next + 1;
        self.loaded.push((priority, channels));
        self.stage = LoadStage::Locate;
        assert(self@.pending =~= old(self)@.pending.skip(1));
        assert(self@.loaded =~= old(self)@.loaded.push((priority, views(channels@))));
    }

    /// Takes in what came of an action.
    pub fn advance(&mut self, event: EpgLoadEvent)
        requires
            old(self).well_formed(),
        ensures
            final(self).well_formed(),
            final(self)@ == old(self)@.after(event@),
    {
        if self.next == self.sources.len() {
            return;
        }
        match event {
            EpgLoadEvent::Located(exists) => {
                if self.stage == LoadStage::Locate {
                    self.stage = if exists {
                        LoadStage::File
                    } else {
                        LoadStage::Fetch
                    };
                }
            },
            EpgLoadEvent::LocateFailed => {
                if self.stage == LoadStage::Locate {
                    self.skip_source();
                }
            },
            EpgLoadEvent::Parsed(channels) => {
                if self.stage != LoadStage::Locate {
                    self.add_channels(channels);
                }
            },
            EpgLoadEvent::ParseFailed => {
                if self.stage == LoadStage::File {
                    self.stage = LoadStage::Fetch;
                } else if self.stage == LoadStage::Fetch {
                    self.skip_source();
                }
            },
        }
    }

    /// The merged channels of all that was loaded; `None` if there was no source.
    pub fn finish(self, input_name: &str) -> (result: Result<
        Option<Vec<EpgChannel>>,
        EpgLoadError,
    >)
        ensures
            match result {
                Ok(Some(channels)) => self@.result() == Ok::<Option<Seq<SpecChannel>>, nat>(
                    Some(views(channels@)),
                ),
                Ok(None) => self@.result() == Ok::<Option<Seq<SpecChannel>>, nat>(None),
                Err(error) => {
                    &&& self@.result() == Err::<Option<Seq<SpecChannel>>, nat>(
                        error.failed_sources as nat,
                    )
                    &&& error.input_name@ == input_name@
                },
            },
    {
        if self.loaded.len() > 0 {
            Ok(Some(merge_prioritized_channels(self.loaded)))
        } else if self.failed > 0 {
            Err(EpgLoadError { failed_sources: self.failed, input_name: input_name.to_owned() })
        } else {
            Ok(None)
        }
    }
}

/// The state after events.
pub open spec fn load_after(start: SpecEpgLoad, events: Seq<SpecLoadEvent>) -> SpecEpgLoad
    decreases events.len(),
{
    if events.len() == 0 {
        start
    } else {
        load_after(start, events.drop_last()).after(events.last())
    }
}

/// Whatever happens, every source is counted once: as loaded, as failed, or as one that is left.
pub proof fn law_every_source_is_counted(input: SpecInput, events: Seq<SpecLoadEvent>)
    ensures
        ({
            let load = load_after(load_start(input), events);
            load.loaded.len() + load.failed + load.pending.len() == load_sources(input).len()
        }),
    decreases events.len(),
{
    if events.len() > 0 {
        law_every_source_is_counted(input, events.drop_last());
    }
}

/// When no source is left, the result is a failure exactly if there were sources and all of them
/// failed; it is nothing exactly if there was no source; otherwise it is what was loaded, merged.
pub proof fn law_result_of_loading(input: SpecInput, events: Seq<SpecLoadEvent>)
    requires
        load_after(load_start(input), events).pending.len() == 0,
    ensures
        ({
            let load = load_after(load_start(input), events);
            let total = load_sources(input).len();
            &&& load.result() is Err <==> total > 0 && load.failed == total
            &&& load.result() is Err ==> load.result() == Err::<Option<Seq<SpecChannel>>, nat>(
                total,
            )
            &&& load.result() == Ok::<Option<Seq<SpecChannel>>, nat>(None) <==> total == 0
            &&& load.failed < total ==> load.result() == Ok::<Option<Seq<SpecChannel>>, nat>(
                Some(merged_channels(load.loaded)),
            )
        }),
{
    law_every_source_is_counted(input, events);
}

/// A source whose file cannot be read is read from its URL before it counts as failed.
pub proof fn law_url_is_tried_after_the_file(load: SpecEpgLoad)
    requires
        load.action() is ParseFile,
    ensures
        load.after(SpecLoadEvent::ParseFailed).action() == SpecLoadAction::Fetch(
            load.pending[0].1,
        ),
        load.after(SpecLoadEvent::ParseFailed).pending == load.pending,
        load.after(SpecLoadEvent::ParseFailed).failed == load.failed,
{
}

/// The number of answers that are still needed at most.
pub open spec fn answers_left(load: SpecEpgLoad) -> int {
    3 * load.pending.len() - match load.stage {
        LoadStage::Locate => 0int,
        LoadStage::File => 1,
        LoadStage::Fetch => 2,
    }
}

/// Whether an event answers an action.
pub open spec fn answers(event: SpecLoadEvent, action: SpecLoadAction) -> bool {
    match action {
        SpecLoadAction::Locate(_) => event is Located || event is LocateFailed,
        SpecLoadAction::ParseFile => event is Parsed || event is ParseFailed,
        SpecLoadAction::Fetch(_) => event is Parsed || event is ParseFailed,
        SpecLoadAction::Finish => false,
    }
}

/// Every answer brings loading nearer to its end, so that it ends.
pub proof fn law_loading_ends(load: SpecEpgLoad, event: SpecLoadEvent)
    requires
        answers(event, load.action()),
    ensures
        0 <= answers_left(load.after(event)) < answers_left(load),
{
}

} // verus!
