//! The inputs and targets that are configured.
use crate::model::{view_option, views};
use crate::text::same_text;
use vstd::prelude::*;

verus! {

/// What kind of playlist an input is.
#[derive(Clone, Copy, PartialEq, Eq, Structural, Debug)]
pub enum InputType {
    M3u,
    M3uBatch,
    Xtream,
    XtreamBatch,
}

/// What is made for a target.
#[derive(Clone, Copy, PartialEq, Eq, Structural, Debug)]
pub enum TargetType {
    M3u,
    Xtream,
    Strm,
    HdHomeRun,
}

/// What is switched on for an input.
#[derive(Clone, Copy, PartialEq, Eq, Structural, Debug)]
pub struct ConfigInputFlags {
    pub xtream_live_stream_use_prefix: bool,
    pub resolve_background: bool,
}

/// The options of an input.
pub struct ConfigInputOptions {
    pub flags: ConfigInputFlags,
    /// Seconds between two requests that resolve an item.
    pub resolve_delay: u16,
    /// Seconds between two requests that probe a stream.
    pub probe_delay: u16,
    /// Hours after which a live stream is probed again.
    pub probe_live_interval_hours: u32,
    pub resolve_filter: Option<String>,
    pub probe_filter: Option<String>,
}

/// [`ConfigInputOptions`] as a mathematical value.
pub struct SpecInputOptions {
    pub flags: ConfigInputFlags,
    pub resolve_delay: u16,
    pub probe_delay: u16,
    pub probe_live_interval_hours: u32,
    pub resolve_filter: Option<Seq<char>>,
    pub probe_filter: Option<Seq<char>>,
}

impl View for ConfigInputOptions {
    type V = SpecInputOptions;

    open spec fn view(&self) -> SpecInputOptions {
        SpecInputOptions {
            flags: self.flags,
            resolve_delay: self.resolve_delay,
            probe_delay: self.probe_delay,
            probe_live_interval_hours: self.probe_live_interval_hours,
            resolve_filter: view_option(self.resolve_filter),
            probe_filter: view_option(self.probe_filter),
        }
    }
}

/// A provider that several URLs lead to, one of which is in use.
pub struct ConfigProvider {
    pub name: String,
    pub urls: Vec<String>,
    /// The position of the URL that is in use.
    pub current: usize,
}

/// A [`ConfigProvider`] as a mathematical value.
pub struct SpecProvider {
    pub name: Seq<char>,
    pub urls: Seq<Seq<char>>,
    pub current: int,
}

impl View for ConfigProvider {
    type V = SpecProvider;

    open spec fn view(&self) -> SpecProvider {
        SpecProvider { name: self.name@, urls: views(self.urls@), current: self.current as int }
    }
}

/// Where a guide comes from. The lower the number, the higher the priority.
pub struct EpgSource {
    pub url: String,
    pub priority: i16,
    pub logo_override: bool,
}

/// An [`EpgSource`] as a mathematical value.
pub struct SpecEpgSource {
    pub url: Seq<char>,
    pub priority: i16,
    pub logo_override: bool,
}

impl View for EpgSource {
    type V = SpecEpgSource;

    open spec fn view(&self) -> SpecEpgSource {
        SpecEpgSource {
            url: self.url@,
            priority: self.priority,
            logo_override: self.logo_override,
        }
    }
}

/// The guides of an input.
pub struct EpgConfig {
    pub sources: Vec<EpgSource>,
}

impl View for EpgConfig {
    type V = Seq<SpecEpgSource>;

    open spec fn view(&self) -> Seq<SpecEpgSource> {
        views(self.sources@)
    }
}

/// A playlist that is read.
pub struct ConfigInput {
    pub id: u16,
    pub name: String,
    pub input_type: InputType,
    pub url: String,
    pub username: Option<String>,
    pub password: Option<String>,
    pub enabled: bool,
    pub options: Option<ConfigInputOptions>,
    pub epg: Option<EpgConfig>,
    pub provider_configs: Vec<ConfigProvider>,
}

/// A [`ConfigInput`] as a mathematical value.
pub struct SpecInput {
    pub id: u16,
    pub name: Seq<char>,
    pub input_type: InputType,
    pub url: Seq<char>,
    pub username: Option<Seq<char>>,
    pub password: Option<Seq<char>>,
    pub enabled: bool,
    pub options: Option<SpecInputOptions>,
    pub epg: Option<Seq<SpecEpgSource>>,
    pub provider_configs: Seq<SpecProvider>,
}

impl View for ConfigInput {
    type V = SpecInput;

    open spec fn view(&self) -> SpecInput {
        SpecInput {
            id: self.id,
            name: self.name@,
            input_type: self.input_type,
            url: self.url@,
            username: view_option(self.username),
            password: view_option(self.password),
            enabled: self.enabled,
            options: view_option(self.options),
            epg: view_option(self.epg),
            provider_configs: views(self.provider_configs@),
        }
    }
}

/// A playlist that is made.
pub struct ConfigTarget {
    pub id: u16,
    pub name: String,
    pub output: Vec<TargetType>,
}

/// A [`ConfigTarget`] as a mathematical value.
pub struct SpecTarget {
    pub id: u16,
    pub name: Seq<char>,
    pub output: Seq<TargetType>,
}

impl View for ConfigTarget {
    type V = SpecTarget;

    open spec fn view(&self) -> SpecTarget {
        SpecTarget { id: self.id, name: self.name@, output: self.output@ }
    }
}

impl ConfigTarget {
    /// Whether the target has an output of this kind.
    pub fn has_output(&self, kind: TargetType) -> (r: bool)
        ensures
            r == self@.output.contains(kind),
    {
        for i in 0..self.output.len()
            invariant
                forall|k: int| 0 <= k < i ==> self.output@[k] != kind,
        {
            if self.output[i] == kind {
                assert(self.output@[i as int] == kind);
                return true;
            }
        }
        false
    }
}

/// The targets that are made of some inputs.
pub struct ConfigSource {
    /// The names of the inputs.
    pub inputs: Vec<String>,
    pub targets: Vec<ConfigTarget>,
}

/// A [`ConfigSource`] as a mathematical value.
pub struct SpecSource {
    pub inputs: Seq<Seq<char>>,
    pub targets: Seq<SpecTarget>,
}

impl View for ConfigSource {
    type V = SpecSource;

    open spec fn view(&self) -> SpecSource {
        SpecSource { inputs: views(self.inputs@), targets: views(self.targets@) }
    }
}

/// What is configured.
pub struct AppConfig {
    pub inputs: Vec<ConfigInput>,
    pub sources: Vec<ConfigSource>,
}

/// An [`AppConfig`] as a mathematical value.
pub struct SpecConfig {
    pub inputs: Seq<SpecInput>,
    pub sources: Seq<SpecSource>,
}

impl View for AppConfig {
    type V = SpecConfig;

    open spec fn view(&self) -> SpecConfig {
        SpecConfig { inputs: views(self.inputs@), sources: views(self.sources@) }
    }
}

/// The first input with this name.
pub open spec fn input_by_name(inputs: Seq<SpecInput>, name: Seq<char>) -> Option<SpecInput>
    decreases inputs.len(),
{
    if inputs.len() == 0 {
        None
    } else if inputs[0].name == name {
        Some(inputs[0])
    } else {
        input_by_name(inputs.skip(1), name)
    }
}

/// The first target with this id.
pub open spec fn target_by_id(targets: Seq<SpecTarget>, id: u16) -> Option<SpecTarget>
    decreases targets.len(),
{
    if targets.len() == 0 {
        None
    } else if targets[0].id == id {
        Some(targets[0])
    } else {
        target_by_id(targets.skip(1), id)
    }
}

/// The first target with this id, source after source.
pub open spec fn target_of_sources(sources: Seq<SpecSource>, id: u16) -> Option<SpecTarget>
    decreases sources.len(),
{
    if sources.len() == 0 {
        None
    } else {
        match target_by_id(sources[0].targets, id) {
            Some(target) => Some(target),
            None => target_of_sources(sources.skip(1), id),
        }
    }
}

/// Whether a target with this name is among `targets`.
pub open spec fn has_target(targets: Seq<SpecTarget>, name: Seq<char>) -> bool {
    exists|i: int| 0 <= i < targets.len() && (#[trigger] targets[i]).name == name
}

/// The names of the inputs of the first source that has a target with this name.
pub open spec fn input_names_for_target(sources: Seq<SpecSource>, name: Seq<char>) -> Option<
    Seq<Seq<char>>,
>
    decreases sources.len(),
{
    if sources.len() == 0 {
        None
    } else if has_target(sources[0].targets, name) {
        Some(sources[0].inputs)
    } else {
        input_names_for_target(sources.skip(1), name)
    }
}

/// The inputs with these names, as far as there are any.
pub open spec fn inputs_by_names(inputs: Seq<SpecInput>, names: Seq<Seq<char>>) -> Seq<SpecInput>
    decreases names.len(),
{
    if names.len() == 0 {
        Seq::empty()
    } else {
        let earlier = inputs_by_names(inputs, names.drop_last());
        match input_by_name(inputs, names.last()) {
            Some(input) => earlier.push(input),
            None => earlier,
        }
    }
}

impl SpecConfig {
    /// The input with this name.
    pub open spec fn input(self, name: Seq<char>) -> Option<SpecInput> {
        input_by_name(self.inputs, name)
    }

    /// The target with this id.
    pub open spec fn target(self, id: u16) -> Option<SpecTarget> {
        target_of_sources(self.sources, id)
    }

    /// The inputs that the target with this name is made of.
    pub open spec fn inputs_for_target(self, name: Seq<char>) -> Option<Seq<SpecInput>> {
        match input_names_for_target(self.sources, name) {
            Some(names) => Some(inputs_by_names(self.inputs, names)),
            None => None,
        }
    }
}

/// The views of what references lead to.
pub open spec fn views_of_refs<T: View>(items: Seq<&T>) -> Seq<T::V> {
    Seq::new(items.len(), |i: int| items[i]@)
}

impl AppConfig {
    /// The input with this name.
    pub fn get_input_by_name(&self, name: &str) -> (input: Option<&ConfigInput>)
        ensures
            match input {
                Some(found) => self@.input(name@) == Some(found@),
                None => self@.input(name@) is None,
            },
    {
        let ghost all = views(self.inputs@);
        assert(all.skip(0) =~= all);
        for i in 0..self.inputs.len()
            invariant
                all == views(self.inputs@),
                input_by_name(all, name@) == input_by_name(all.skip(i as int), name@),
        {
            assert(all.skip(i as int)[0] == self.inputs@[i as int]@);
            assert(all.skip(i as int).skip(1) =~= all.skip(i + 1));
            if same_text(self.inputs[i].name.as_str(), name) {
                return Some(&self.inputs[i]);
            }
        }
        None
    }

    /// The target with this id.
    pub fn get_target_by_id(&self, id: u16) -> (target: Option<&ConfigTarget>)
        ensures
            match target {
                Some(found) => self@.target(id) == Some(found@),
                None => self@.target(id) is None,
            },
    {
        let ghost sources = views(self.sources@);
        assert(sources.skip(0) =~= sources);
        for i in 0..self.sources.len()
            invariant
                sources == views(self.sources@),
                target_of_sources(sources, id) == target_of_sources(sources.skip(i as int), id),
        {
            let targets = &self.sources[i].targets;
            let ghost all = views(targets@);
            assert(sources.skip(i as int)[0] == self.sources@[i as int]@);
            assert(sources.skip(i as int).skip(1) =~= sources.skip(i + 1));
            assert(all.skip(0) =~= all);
            for k in 0..targets.len()
                invariant
                    sources == views(self.sources@),
                    i < sources.len(),
                    targets@ == self.sources@[i as int].targets@,
                    all == views(targets@),
                    sources[i as int].targets == all,
                    sources.skip(i as int)[0] == sources[i as int],
                    target_of_sources(sources, id) == target_of_sources(
                        sources.skip(i as int),
                        id,
                    ),
                    target_by_id(all, id) == target_by_id(all.skip(k as int), id),
            {
                assert(all.skip(k as int)[0] == targets@[k as int]@);
                assert(all.skip(k as int).skip(1) =~= all.skip(k + 1));
                if targets[k].id == id {
                    return Some(&targets[k]);
                }
            }
        }
        None
    }

    /// The inputs that the target with this name is made of.
    pub fn get_inputs_for_target(&self, name: &str) -> (inputs: Option<Vec<&ConfigInput>>)
        ensures
            match inputs {
                Some(found) => self@.inputs_for_target(name@) == Some(views_of_refs(found@)),
                None => self@.inputs_for_target(name@) is None,
            },
    {
        let ghost sources = views(self.sources@);
        assert(sources.skip(0) =~= sources);
        for i in 0..self.sources.len()
            invariant
                sources == views(self.sources@),
                input_names_for_target(sources, name@) == input_names_for_target(
                    sources.skip(i as int),
                    name@,
                ),
        {
            let source = &self.sources[i];
            assert(sources.skip(i as int)[0] == source@);
            assert(sources.skip(i as int).skip(1) =~= sources.skip(i + 1));
            if Self::contains_target(&source.targets, name) {
                return Some(self.inputs_with_names(&source.inputs));
            }
        }
        None
    }

    /// Whether a target with this name is among `targets`.
    fn contains_target(targets: &Vec<ConfigTarget>, name: &str) -> (r: bool)
        ensures
            r == has_target(views(targets@), name@),
    {
        for i in 0..targets.len()
            invariant
                forall|k: int| 0 <= k < i ==> (#[trigger] targets@[k]).name@ != name@,
        {
            if same_text(targets[i].name.as_str(), name) {
                assert(views(targets@)[i as int].name == name@);
                return true;
            }
        }
        assert forall|k: int| 0 <= k < targets@.len() implies (#[trigger] views(targets@)[k]).name
            != name@ by {
            assert(targets@[k].name@ != name@);
        }
        false
    }

    /// The inputs with these names.
    fn inputs_with_names(&self, names: &Vec<String>) -> (inputs: Vec<&ConfigInput>)
        ensures
            views_of_refs(inputs@) == inputs_by_names(self@.inputs, views(names@)),
    {
        let ghost all = views(names@);
        let mut inputs: Vec<&ConfigInput> = Vec::new();
        assert(views_of_refs(inputs@) =~= Seq::<SpecInput>::empty());
        for i in 0..names.len()
            invariant
                all == views(names@),
                views_of_refs(inputs@) == inputs_by_names(self@.inputs, all.take(i as int)),
        {
            assert(all.take(i + 1).drop_last() =~= all.take(i as int));
            assert(all.take(i + 1).last() == names@[i as int]@);
            if let Some(input) = self.get_input_by_name(names[i].as_str()) {
                let ghost before = inputs@;
                inputs.push(input);
                assert(views_of_refs(inputs@) =~= views_of_refs(before).push(input@));
            }
        }
        assert(all.take(all.len() as int) =~= all);
        inputs
    }
}

} // verus!
