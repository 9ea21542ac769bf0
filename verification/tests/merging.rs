use tvguide::epg_merge::{
    dedupe_channel_programmes, merge_missing_channel_programmes, merge_prioritized_channels,
    ProgrammeMergeKey,
};
use tvguide::model::{Attributes, Epg, EpgChannel, EpgProgramme, TVGuide};
use std::sync::Arc;
use tvguide::playlist::merge_epg_channels;
use tvguide::shared::{present_channels, SharedEpg};
use tvguide::tvguide::flatten_tvguide;

fn programme(start: i64, stop: i64, title: &str) -> EpgProgramme {
    EpgProgramme::new_all(start, stop, "demo.channel".to_string(), Some(title.to_string()), None)
}

fn channel(title: &str, icon: Option<&str>, programmes: Vec<EpgProgramme>) -> EpgChannel {
    EpgChannel {
        id: "demo.channel".to_string(),
        title: Some(title.to_string()),
        icon: icon.map(|source| source.to_string()),
        programmes,
    }
}

fn guide(priority: i16, attributes: Option<Attributes>, children: Vec<EpgChannel>) -> Epg {
    Epg { logo_override: false, priority, attributes, children }
}

fn generator(name: &str) -> Option<Attributes> {
    let mut attributes = Attributes::new();
    attributes.insert("generator-info-name".to_string(), name.to_string());
    Some(attributes)
}

fn generator_of(epg: &Epg) -> Option<&str> {
    epg.attributes
        .as_ref()
        .and_then(|attributes| attributes.get("generator-info-name"))
        .map(|name| name.as_str())
}

fn slots(channel: &EpgChannel) -> Vec<(i64, i64)> {
    channel.programmes.iter().map(|programme| (programme.start, programme.stop)).collect()
}

#[test]
fn flatten_tvguide_prefers_higher_priority_metadata_and_merges_all_programmes() {
    let low_priority = guide(
        10,
        None,
        vec![channel("Low", Some("http://low/icon.png"), vec![programme(10, 20, "Low Show")])],
    );
    let high_priority = guide(
        0,
        None,
        vec![channel("High", Some("http://high/icon.png"), vec![programme(30, 40, "High Show")])],
    );

    let epg = flatten_tvguide(vec![low_priority, high_priority]).expect("merged epg");
    assert_eq!(epg.children.len(), 1);
    assert_eq!(epg.children[0].title.as_deref(), Some("High"));
    assert_eq!(epg.children[0].icon.as_deref(), Some("http://high/icon.png"));
    assert_eq!(slots(&epg.children[0]), vec![(10, 20), (30, 40)]);
}

#[test]
fn flatten_tvguide_uses_attributes_from_highest_priority_source() {
    let low_priority = guide(10, generator("low"), vec![]);
    let high_priority = guide(0, generator("high"), vec![]);

    let epg = flatten_tvguide(vec![low_priority, high_priority]).expect("merged epg");

    assert_eq!(generator_of(&epg), Some("high"));
}

#[test]
fn tvguide_merge_prefers_higher_priority_attributes_and_dedupes_channels() {
    let low_priority = guide(
        10,
        generator("low"),
        vec![channel("Low", None, vec![programme(10, 20, "Low Show")])],
    );
    let high_priority = guide(
        0,
        generator("high"),
        vec![channel("High", Some("http://high/icon.png"), vec![programme(30, 40, "High Show")])],
    );

    let epg = TVGuide::merge(vec![low_priority, high_priority]).expect("merged epg");

    assert_eq!(generator_of(&epg), Some("high"));
    assert_eq!(epg.children.len(), 1);
    assert_eq!(epg.children[0].title.as_deref(), Some("High"));
    assert_eq!(epg.children[0].icon.as_deref(), Some("http://high/icon.png"));
    assert_eq!(slots(&epg.children[0]), vec![(10, 20), (30, 40)]);
}

#[test]
fn flatten_tvguide_dedupes_duplicate_programmes_from_preferred_source() {
    let high_priority = guide(
        0,
        None,
        vec![channel(
            "High",
            None,
            vec![programme(30, 40, "High Title"), programme(30, 40, "Duplicate Title")],
        )],
    );
    let low_priority =
        guide(10, None, vec![channel("Low", None, vec![programme(50, 60, "Low Title")])]);

    let epg = flatten_tvguide(vec![high_priority, low_priority]).expect("merged epg");

    assert_eq!(epg.children.len(), 1);
    assert_eq!(epg.children[0].programmes.len(), 2);
    assert_eq!(slots(&epg.children[0]), vec![(30, 40), (50, 60)]);
    assert_eq!(epg.children[0].programmes[0].title.as_deref(), Some("High Title"));
}

#[test]
fn merge_epg_channels_prefers_higher_priority_metadata_and_merges_all_programmes() {
    let low_priority =
        channel("Low", Some("http://low/icon.png"), vec![programme(10, 20, "Low Show")]);
    let high_priority =
        channel("High", Some("http://high/icon.png"), vec![programme(30, 40, "High Show")]);
    let same_priority = channel(
        "Same",
        Some("http://same/icon.png"),
        vec![programme(30, 40, "Duplicate"), programme(50, 60, "Second Show")],
    );

    let channels = merge_epg_channels(vec![
        (10, vec![low_priority]),
        (0, vec![high_priority]),
        (0, vec![same_priority]),
    ]);

    assert_eq!(channels.len(), 1);
    assert_eq!(channels[0].title.as_deref(), Some("High"));
    assert_eq!(channels[0].icon.as_deref(), Some("http://high/icon.png"));
    assert_eq!(channels[0].programmes.len(), 3);
    assert_eq!(slots(&channels[0]), vec![(10, 20), (30, 40), (50, 60)]);
}

#[test]
fn merge_epg_channels_dedupes_duplicate_programmes_from_winning_source() {
    let high_priority = channel(
        "High",
        Some("http://high/icon.png"),
        vec![programme(30, 40, "High Show"), programme(30, 40, "High Show Duplicate")],
    );
    let low_priority =
        channel("Low", Some("http://low/icon.png"), vec![programme(50, 60, "Low Show")]);

    let channels = merge_epg_channels(vec![(0, vec![high_priority]), (10, vec![low_priority])]);

    assert_eq!(channels.len(), 1);
    assert_eq!(channels[0].programmes.len(), 2);
    assert_eq!(slots(&channels[0]), vec![(30, 40), (50, 60)]);
    assert_eq!(channels[0].programmes[0].title.as_deref(), Some("High Show"));
}

#[test]
fn nothing_is_merged_from_no_guide() {
    assert!(flatten_tvguide(vec![]).is_none());
    assert!(TVGuide::merge(vec![]).is_none());
    assert!(merge_prioritized_channels(vec![]).is_empty());
}

#[test]
fn merged_guide_has_no_priority_and_overrides_no_logo() {
    let mut only = guide(7, None, vec![]);
    only.logo_override = true;
    let epg = flatten_tvguide(vec![only]).expect("merged epg");
    assert_eq!(epg.priority, 0);
    assert!(!epg.logo_override);
    assert!(epg.attributes.is_none());
    assert!(epg.children.is_empty());
}

#[test]
fn first_of_equally_preferred_guides_gives_the_attributes() {
    let epg = flatten_tvguide(vec![
        guide(5, generator("first"), vec![]),
        guide(5, generator("second"), vec![]),
        guide(6, generator("third"), vec![]),
    ])
    .expect("merged epg");
    assert_eq!(generator_of(&epg), Some("first"));
    let without = flatten_tvguide(vec![guide(-1, None, vec![]), guide(0, generator("x"), vec![])])
        .expect("merged epg");
    assert_eq!(generator_of(&without), None);
}

#[test]
fn missing_metadata_is_not_taken_from_another_source() {
    let high_priority = channel("High", None, vec![]);
    let low_priority = channel("Low", Some("http://low/icon.png"), vec![]);
    let channels =
        merge_prioritized_channels(vec![(1, vec![low_priority]), (0, vec![high_priority])]);
    assert_eq!(channels.len(), 1);
    assert_eq!(channels[0].title.as_deref(), Some("High"));
    assert_eq!(channels[0].icon, None);
}

#[test]
fn programme_of_preferred_source_takes_the_slot() {
    let channels = merge_prioritized_channels(vec![
        (3, vec![channel("C", None, vec![programme(10, 20, "third"), programme(5, 6, "early")])]),
        (-2, vec![channel("A", None, vec![programme(10, 20, "first")])]),
        (0, vec![channel("B", None, vec![programme(10, 20, "second"), programme(10, 30, "long")])]),
    ]);
    let titles: Vec<_> =
        channels[0].programmes.iter().filter_map(|programme| programme.title.as_deref()).collect();
    assert_eq!(titles, vec!["early", "first", "long"]);
}

#[test]
fn channels_keep_the_order_of_their_sources() {
    let named = |id: &str| EpgChannel {
        id: id.to_string(),
        title: None,
        icon: None,
        programmes: vec![],
    };
    let channels = merge_prioritized_channels(vec![
        (1, vec![named("c"), named("a")]),
        (0, vec![named("b"), named("c")]),
    ]);
    let ids: Vec<_> = channels.iter().map(|channel| channel.id.as_str()).collect();
    assert_eq!(ids, vec!["b", "c", "a"]);
}

#[test]
fn merging_twice_changes_nothing() {
    let once = merge_prioritized_channels(vec![
        (1, vec![channel("Low", None, vec![programme(1, 2, "a"), programme(0, 1, "b")])]),
        (0, vec![channel("High", None, vec![programme(1, 2, "c")])]),
    ]);
    let expected: Vec<_> = once[0].programmes.iter().map(|p| (p.start, p.title.clone())).collect();
    let twice = merge_prioritized_channels(vec![(9, once)]);
    assert_eq!(twice.len(), 1);
    assert_eq!(twice[0].title.as_deref(), Some("High"));
    let found: Vec<_> = twice[0].programmes.iter().map(|p| (p.start, p.title.clone())).collect();
    assert_eq!(found, expected);
    assert_eq!(
        found,
        vec![(0, Some("b".to_string())), (1, Some("c".to_string()))],
    );
}

#[test]
fn first_programme_of_a_slot_stays() {
    let mut demo = channel(
        "Demo",
        None,
        vec![programme(1, 2, "a"), programme(3, 4, "b"), programme(1, 2, "c")],
    );
    let mut keys = dedupe_channel_programmes(&mut demo);
    assert_eq!(slots(&demo), vec![(1, 2), (3, 4)]);
    assert_eq!(demo.programmes[0].title.as_deref(), Some("a"));
    assert!(!keys.insert(ProgrammeMergeKey::from(&programme(3, 4, "d"))));
    assert!(keys.insert(ProgrammeMergeKey::from(&programme(3, 5, "e"))));
    merge_missing_channel_programmes(
        &mut demo,
        &mut keys,
        vec![programme(3, 5, "f"), programme(0, 1, "g"), programme(0, 1, "h")],
    );
    assert_eq!(slots(&demo), vec![(1, 2), (3, 4), (0, 1)]);
    assert_eq!(demo.programmes[2].title.as_deref(), Some("g"));
}

#[test]
fn channels_in_use_elsewhere_are_left_out() {
    let named = |id: &str| {
        Arc::new(EpgChannel { id: id.to_string(), title: None, icon: None, programmes: vec![] })
    };
    let shared = |children| SharedEpg {
        logo_override: true,
        priority: 4,
        attributes: generator("g"),
        children,
    };
    let used = named("b");
    let epg = shared(vec![named("a"), Arc::clone(&used), named("c")]).into_epg();
    let ids: Vec<_> = epg.children.iter().map(|channel| channel.id.as_str()).collect();
    assert_eq!(ids, vec!["a", "c"]);
    assert_eq!((epg.priority, epg.logo_override, generator_of(&epg)), (4, true, Some("g")));
    let merged = TVGuide::merge_shared(vec![
        shared(vec![named("a"), Arc::clone(&used)]),
        shared(vec![named("d")]),
    ])
    .expect("merged epg");
    let ids: Vec<_> = merged.children.iter().map(|channel| channel.id.as_str()).collect();
    assert_eq!(ids, vec!["a", "d"]);
    assert_eq!(used.id, "b");
    assert!(TVGuide::merge_shared(vec![]).is_none());
    assert!(present_channels(vec![None]).is_empty());
}

#[test]
fn no_channel_is_left_out_if_none_is_in_use_elsewhere() {
    let low = channel("Low", None, vec![programme(10, 20, "Low Show")]);
    let high = channel("High", None, vec![programme(30, 40, "High Show")]);
    let shared = |priority, child| SharedEpg {
        logo_override: false,
        priority,
        attributes: None,
        children: vec![Arc::new(child)],
    };
    let epg =
        TVGuide::merge_shared(vec![shared(10, low), shared(0, high)]).expect("merged epg");
    assert_eq!(epg.children.len(), 1);
    assert_eq!(epg.children[0].title.as_deref(), Some("High"));
    assert_eq!(slots(&epg.children[0]), vec![(10, 20), (30, 40)]);
}
