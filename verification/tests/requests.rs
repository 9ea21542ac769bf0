use tvguide::cache::EpgIdCache;
use tvguide::config::{
    AppConfig, ConfigInput, ConfigProvider, ConfigSource, ConfigTarget, EpgConfig, EpgSource,
    InputType, TargetType,
};
use tvguide::epg_load::{EpgLoad, EpgLoadAction, EpgLoadError, EpgLoadEvent};
use tvguide::model::{EpgChannel, PersistedEpgSource, TVGuide};
use tvguide::normalize::{EpgNamePrefix, EpgSmartMatchConfig, NormalizeRegex};
use tvguide::numbers::{parse_u32, to_decimal};
use tvguide::playlist::{
    build_playlist_webplayer_url, create_config_input_for_m3u, create_config_input_for_xtream,
    epg_resource_url, is_web_scheme, is_web_url, player_server_name, playlist_content,
    playlist_episode_item, playlist_epg, playlist_resolve_url, playlist_resource,
    playlist_series_info,
    playlist_update, playlist_webplayer, reply_with_custom_epg, reply_with_episode, reply_with_input_epg,
    reply_with_target_epg, requested_targets, EpgReply,
    PlaylistContent, PlaylistEpg, RequestDelays, Status, UpdateOutcome, UrlAnswer, INVALID_SCHEME,
};
use tvguide::provider::{
    resolve_provider_url_for_request, resolve_provider_url_with_input, ProviderError,
};
use tvguide::requests::{
    M3uPlaylistRequest, PlaylistEpgRequest, PlaylistRequest, PlaylistUrlResolveRequest,
    ProxyType, XtreamCluster, XtreamPlaylistRequest,
};

const DELAYS: RequestDelays = RequestDelays { resolve_delay: 2, probe_delay: 3 };

fn provider(name: &str, url: &str) -> ConfigProvider {
    ConfigProvider { name: name.to_string(), urls: vec![url.to_string()], current: 0 }
}

fn input(id: u16, name: &str, provider_configs: Vec<ConfigProvider>) -> ConfigInput {
    ConfigInput {
        id,
        name: name.to_string(),
        input_type: InputType::M3u,
        url: String::new(),
        username: None,
        password: None,
        enabled: true,
        options: None,
        epg: None,
        provider_configs,
    }
}

fn target(id: u16, output: Vec<TargetType>) -> ConfigTarget {
    ConfigTarget { id, name: "target".to_string(), output }
}

fn app_config(inputs: Vec<ConfigInput>, targets: Vec<ConfigTarget>) -> AppConfig {
    let names = inputs.iter().map(|input| input.name.clone()).collect();
    AppConfig { inputs, sources: vec![ConfigSource { inputs: names, targets }] }
}

fn demo_input() -> ConfigInput {
    input(7, "input", vec![provider("demo", "http://provider.example")])
}

fn demo_config(targets: Vec<ConfigTarget>) -> AppConfig {
    app_config(vec![demo_input()], targets)
}

#[test]
fn resolve_provider_url_for_input_request_rewrites_provider_scheme() {
    let resolved = resolve_provider_url_for_request(
        &demo_config(vec![]),
        &PlaylistRequest::Input("input".to_string()),
        "provider://demo/live/user/pass/1359.ts",
    );

    assert_eq!(resolved, "http://provider.example/live/user/pass/1359.ts");
}

#[test]
fn resolve_provider_url_for_target_request_rewrites_provider_scheme() {
    let resolved = resolve_provider_url_for_request(
        &demo_config(vec![target(11, vec![])]),
        &PlaylistRequest::Target(11),
        "provider://demo/live/user/pass/1359.ts",
    );

    assert_eq!(resolved, "http://provider.example/live/user/pass/1359.ts");
}

#[test]
fn resolve_provider_url_passthrough_for_unresolved_provider_input_request() {
    let original = "provider://unknown/live/user/pass/1359.ts";
    let resolved = resolve_provider_url_for_request(
        &demo_config(vec![]),
        &PlaylistRequest::Input("input".to_string()),
        original,
    );

    assert_eq!(resolved, original);
}

#[test]
fn resolve_provider_url_passthrough_for_unresolved_provider_target_request() {
    let original = "provider://unknown/live/user/pass/1359.ts";
    let resolved = resolve_provider_url_for_request(
        &demo_config(vec![target(11, vec![])]),
        &PlaylistRequest::Target(11),
        original,
    );

    assert_eq!(resolved, original);
}

#[test]
fn resolve_provider_url_passthrough_for_ambiguous_target_request() {
    let config = app_config(
        vec![
            input(7, "input-a", vec![provider("shared", "http://provider-a.example")]),
            input(8, "input-b", vec![provider("shared", "http://provider-b.example")]),
        ],
        vec![target(11, vec![])],
    );
    let original = "provider://shared/live/user/pass/1359.ts";
    let resolved = resolve_provider_url_for_request(&config, &PlaylistRequest::Target(11), original);

    assert_eq!(resolved, original);
}

#[test]
fn only_input_of_a_target_resolves() {
    let config = app_config(
        vec![
            input(7, "input-a", vec![provider("a", "http://provider-a.example")]),
            input(8, "input-b", vec![provider("b", "http://provider-b.example")]),
        ],
        vec![target(11, vec![])],
    );
    let resolved =
        resolve_provider_url_for_request(&config, &PlaylistRequest::Target(11), "provider://b/x");
    assert_eq!(resolved, "http://provider-b.example/x");
    let unknown =
        resolve_provider_url_for_request(&config, &PlaylistRequest::Target(12), "provider://b/x");
    assert_eq!(unknown, "provider://b/x");
}

#[test]
fn urls_without_provider_and_custom_requests_pass_through() {
    let config = demo_config(vec![target(11, vec![])]);
    let plain = "http://host/provider://demo/x";
    assert_eq!(
        resolve_provider_url_for_request(&config, &PlaylistRequest::Target(11), plain),
        plain,
    );
    let custom = PlaylistRequest::CustomM3u(M3uPlaylistRequest { url: "http://x".to_string() });
    assert_eq!(
        resolve_provider_url_for_request(&config, &custom, "provider://demo/x"),
        "provider://demo/x",
    );
    let missing = PlaylistRequest::Input("missing".to_string());
    assert_eq!(
        resolve_provider_url_for_request(&config, &missing, "provider://demo/x"),
        "provider://demo/x",
    );
}

#[test]
fn provider_url_resolves_or_tells_why_not() {
    let mut demo = demo_input();
    assert_eq!(demo.resolve_url("provider://demo").as_deref(), Ok("http://provider.example"));
    assert_eq!(demo.resolve_url("provider://demo/a/b?c").as_deref(), Ok("http://provider.example/a/b?c"));
    assert_eq!(demo.resolve_url("ftp://x").as_deref(), Ok("ftp://x"));
    assert_eq!(demo.resolve_url("provider://other/a"), Err(ProviderError::UnknownProvider));
    assert!(demo.get_resolve_provider("provider://demo/a").is_some());
    assert!(demo.get_resolve_provider("http://demo/a").is_none());
    demo.provider_configs[0].current = 1;
    assert_eq!(demo.resolve_url("provider://demo/a"), Err(ProviderError::NoUrl));
    assert_eq!(resolve_provider_url_with_input(&demo, "provider://demo/a"), "provider://demo/a");
    demo.provider_configs[0].urls.push("http://second.example".to_string());
    assert_eq!(
        resolve_provider_url_with_input(&demo, "provider://demo/a"),
        "http://second.example/a",
    );
}

#[test]
fn build_playlist_webplayer_url_uses_cluster_stream_type() {
    let live =
        build_playlist_webplayer_url("http://player.example", "token123", 1, 42, XtreamCluster::Live);
    let movie =
        build_playlist_webplayer_url("http://player.example", "token123", 1, 42, XtreamCluster::Video);
    let series =
        build_playlist_webplayer_url("http://player.example", "token123", 1, 42, XtreamCluster::Series);

    assert_eq!(live, "http://player.example/token/token123/1/live/42");
    assert_eq!(movie, "http://player.example/token/token123/1/movie/42");
    assert_eq!(series, "http://player.example/token/token123/1/series/42");
}

#[test]
fn web_player_needs_a_server() {
    assert_eq!(player_server_name(None), "default");
    assert_eq!(player_server_name(Some("tv")), "tv");
    assert_eq!(
        playlist_webplayer(None, "t", 1, 2, XtreamCluster::Live),
        Err(Status::ServiceUnavailable),
    );
    assert_eq!(
        playlist_webplayer(Some("http://h"), "t", 65535, 4294967295, XtreamCluster::Live).as_deref(),
        Ok("http://h/token/t/65535/live/4294967295"),
    );
}

#[test]
fn numbers_are_read_as_they_were_written() {
    for value in [0u32, 7, 10, 99, 100, 4294967295] {
        assert_eq!(to_decimal(value as u64), value.to_string());
        assert_eq!(parse_u32(&to_decimal(value as u64)), Some(value));
    }
    assert_eq!(to_decimal(u64::MAX), u64::MAX.to_string());
    for text in ["", "+", "+12", "007", "-1", "-0", "4294967296", "99999999999999999999", "1a", " 1", "٣", "++1"] {
        assert_eq!(parse_u32(text), text.parse::<u32>().ok(), "{}", text);
    }
}

#[test]
fn inputs_of_requests_are_complete() {
    let m3u = create_config_input_for_m3u("http://list", DELAYS);
    assert_eq!((m3u.id, m3u.name.as_str(), m3u.input_type), (0, "m3u_req", InputType::M3u));
    assert_eq!((m3u.url.as_str(), m3u.enabled), ("http://list", true));
    assert_eq!((m3u.username.as_ref(), m3u.password.as_ref()), (None, None));
    let options = m3u.options.expect("options");
    assert!(options.flags.xtream_live_stream_use_prefix && options.flags.resolve_background);
    assert_eq!((options.resolve_delay, options.probe_delay), (2, 3));
    assert_eq!(options.probe_live_interval_hours, 120);
    assert!(options.resolve_filter.is_none() && options.probe_filter.is_none());
    let xtream = create_config_input_for_xtream("user", "pass", "http://host", DELAYS);
    assert_eq!((xtream.name.as_str(), xtream.input_type), ("xc_req", InputType::Xtream));
    assert_eq!(xtream.url, "http://host");
    assert_eq!(xtream.username.as_deref(), Some("user"));
    assert_eq!(xtream.password.as_deref(), Some("pass"));
    assert_eq!(xtream.options.expect("options").probe_live_interval_hours, 120);
}

#[test]
fn only_web_urls_are_used() {
    assert!(is_web_scheme(Some("http")));
    assert!(is_web_scheme(Some("https")));
    assert!(!is_web_scheme(Some("ftp")));
    assert!(!is_web_scheme(None));
    assert!(is_web_url("http://host/x"));
    assert!(is_web_url("HTTPS://host"));
    assert!(!is_web_url("file:///tmp/epg.xml"));
    assert!(!is_web_url("host/x"));
    assert!(!is_web_url(""));
}

#[test]
fn content_comes_from_where_it_is_asked_for() {
    let config = demo_config(vec![target(11, vec![])]);
    assert!(matches!(
        playlist_content(&config, &PlaylistRequest::Target(11), DELAYS),
        Ok(PlaylistContent::Target(Some(found))) if found.id == 11
    ));
    assert!(matches!(
        playlist_content(&config, &PlaylistRequest::Target(12), DELAYS),
        Ok(PlaylistContent::Target(None))
    ));
    assert!(matches!(
        playlist_content(&config, &PlaylistRequest::Input("input".to_string()), DELAYS),
        Ok(PlaylistContent::Input(Some(found))) if found.id == 7
    ));
    let m3u = |url: &str| PlaylistRequest::CustomM3u(M3uPlaylistRequest { url: url.to_string() });
    assert!(matches!(
        playlist_content(&config, &m3u("http://list"), DELAYS),
        Ok(PlaylistContent::Provider(found))
            if found.url == "http://list" && found.name == "m3u_req"
    ));
    let refused = |request: &PlaylistRequest| {
        let refusal = playlist_content(&config, request, DELAYS).err().expect("refusal");
        (refusal.status.code(), refusal.text)
    };
    assert_eq!(refused(&m3u("file:///list")), (400, Some(INVALID_SCHEME)));
    let xtream = |url: &str| {
        PlaylistRequest::CustomXtream(XtreamPlaylistRequest {
            username: "u".to_string(),
            password: "p".to_string(),
            url: url.to_string(),
        })
    };
    assert!(matches!(
        playlist_content(&config, &xtream("https://host"), DELAYS),
        Ok(PlaylistContent::Provider(found)) if found.username.as_deref() == Some("u")
    ));
    assert_eq!(refused(&xtream("nowhere")), (400, Some(INVALID_SCHEME)));
}

#[test]
fn series_need_an_xtream_output() {
    let config = demo_config(vec![
        target(1, vec![TargetType::M3u, TargetType::Xtream]),
        target(2, vec![TargetType::M3u]),
    ]);
    let series = playlist_series_info(&config, &PlaylistRequest::Target(1)).ok().expect("series");
    assert_eq!(series.target.id, 1);
    assert_eq!(series.proxy, ProxyType::Redirect);
    assert_eq!(series.cluster, XtreamCluster::Series);
    for request in [
        PlaylistRequest::Target(2),
        PlaylistRequest::Target(3),
        PlaylistRequest::Input("input".to_string()),
        PlaylistRequest::CustomM3u(M3uPlaylistRequest { url: "http://x".to_string() }),
    ] {
        assert_eq!(playlist_series_info(&config, &request).err(), Some(Status::NoContent));
        assert_eq!(playlist_episode_item(&config, &request, "42").err(), Some(Status::NoContent));
    }
    let item =
        playlist_episode_item(&config, &PlaylistRequest::Target(1), "42").ok().expect("item");
    assert_eq!((item.target.id, item.virtual_id, item.cluster), (1, 42, XtreamCluster::Series));
    assert_eq!(
        playlist_episode_item(&config, &PlaylistRequest::Target(1), "x").err(),
        Some(Status::NoContent),
    );
}

#[test]
fn what_is_looked_for_in_vain_is_answered() {
    assert_eq!(reply_with_episode(Some(5)), Ok(5));
    assert_eq!(reply_with_episode::<u32>(None), Err(Status::NoContent));
    assert_eq!(reply_with_target_epg(Some("path")), Ok("path"));
    assert_eq!(reply_with_target_epg::<&str>(None), Err(Status::NoContent));
    assert_eq!(playlist_resource(Some("http://x".to_string())), Ok("http://x".to_string()));
    assert_eq!(playlist_resource(None), Err(Status::BadRequest));
}

#[test]
fn updates_are_answered() {
    assert_eq!(requested_targets(vec![]), None);
    assert_eq!(requested_targets(vec!["a".to_string()]), Some(vec!["a".to_string()]));
    let answer = |outcome| {
        let (status, text) = playlist_update(outcome);
        (status.code(), text)
    };
    assert_eq!(answer(UpdateOutcome::Queued), (202, None));
    assert_eq!(answer(UpdateOutcome::AlreadyQueued), (202, None));
    assert_eq!(answer(UpdateOutcome::Closed), (503, None));
    assert_eq!(
        answer(UpdateOutcome::InvalidTargets("no such target".to_string())),
        (400, Some("no such target".to_string())),
    );
}

#[test]
fn resources_are_served_under_the_web_interface() {
    assert_eq!(epg_resource_url(None), "/api/v1/playlist/resource");
    assert_eq!(epg_resource_url(Some("")), "/api/v1/playlist/resource");
    assert_eq!(epg_resource_url(Some("//")), "/api/v1/playlist/resource");
    assert_eq!(epg_resource_url(Some("ui")), "/ui/api/v1/playlist/resource");
    assert_eq!(epg_resource_url(Some("/a/b/")), "/a/b/api/v1/playlist/resource");
}

#[test]
fn playlist_epg_custom_route_rejects_invalid_url_scheme() {
    let config = demo_config(vec![]);
    let request = PlaylistEpgRequest::Custom("file:///tmp/epg.xml".to_string());
    let refusal = playlist_epg(&config, request).err().expect("refusal");
    assert_eq!(refusal.status.code(), 400);
    let text = refusal.text.expect("text");
    assert!(text.contains("Invalid url scheme"), "{}", text);
    assert_eq!(text, "Invalid url scheme; only http/https are allowed");
}

#[test]
fn playlist_epg_input_route_returns_no_content_for_unknown_input_name() {
    let config = demo_config(vec![]);
    let request = PlaylistEpgRequest::Input("missing".to_string());
    let refusal = playlist_epg(&config, request).err().expect("refusal");
    assert_eq!(refusal.status.code(), 204);
    assert_eq!(refusal.text, None);
}

#[test]
fn guide_comes_from_where_it_is_asked_for() {
    let config = demo_config(vec![target(11, vec![])]);
    assert!(matches!(
        playlist_epg(&config, PlaylistEpgRequest::Target(11)),
        Ok(PlaylistEpg::Target(found)) if found.id == 11
    ));
    assert!(matches!(
        playlist_epg(&config, PlaylistEpgRequest::Target(12)),
        Err(refusal) if refusal.status == Status::NoContent && refusal.text.is_none()
    ));
    assert!(matches!(
        playlist_epg(&config, PlaylistEpgRequest::Input("input".to_string())),
        Ok(PlaylistEpg::Input(found)) if found.id == 7
    ));
    assert!(matches!(
        playlist_epg(&config, PlaylistEpgRequest::Custom("http://host/epg.xml".to_string())),
        Ok(PlaylistEpg::Custom(url)) if url == "http://host/epg.xml"
    ));
}

fn input_with_sources(sources: Vec<(&str, i16)>) -> ConfigInput {
    let mut demo = demo_input();
    demo.epg = Some(EpgConfig {
        sources: sources
            .into_iter()
            .map(|(url, priority)| EpgSource { url: url.to_string(), priority, logo_override: false })
            .collect(),
    });
    demo
}

fn read_channels(document: &str) -> Vec<EpgChannel> {
    let mut id_cache = EpgIdCache::new(EpgSmartMatchConfig {
        enabled: false,
        fuzzy_matching: false,
        match_threshold: 80,
        best_match_threshold: 95,
        name_prefix: EpgNamePrefix::Ignore,
        name_prefix_separator: vec![],
        country_codes: vec![],
        strip: vec![],
        normalize_regex: NormalizeRegex::new("[^a-z]".to_string()).expect("regex"),
    });
    id_cache.channel_epg_id.insert("demo.channel".to_string());
    let source = PersistedEpgSource { file_path: String::new(), priority: 0, logo_override: false };
    TVGuide::process_epg_file(&mut id_cache, &source, document.as_bytes()).expect("epg").children
}

fn expect_locate(load: &EpgLoad, expected: &str) {
    match load.action() {
        EpgLoadAction::Locate(url) => assert_eq!(url, expected),
        _ => panic!("the file is to be located"),
    }
}

#[test]
fn load_epg_channels_for_input_uses_resolved_provider_epg_cache_file() {
    let input =
        input_with_sources(vec![("provider://demo/xmltv.php?username=user&password=pass", 0)]);
    let mut load = EpgLoad::new(&input);
    expect_locate(&load, "http://provider.example/xmltv.php?username=user&password=pass");
    load.advance(EpgLoadEvent::Located(true));
    assert!(matches!(load.action(), EpgLoadAction::ParseFile));
    load.advance(EpgLoadEvent::Parsed(read_channels(
        r#"<?xml version="1.0" encoding="utf-8"?>
<tv>
  <channel id="demo.channel">
    <display-name>Demo Channel</display-name>
  </channel>
  <programme start="20260425000000 +0000" stop="20260425010000 +0000" channel="demo.channel">
    <title>Morning Show</title>
  </programme>
</tv>"#,
    )));
    assert!(matches!(load.action(), EpgLoadAction::Finish));
    let channels = load.finish(&input.name).ok().expect("load epg").expect("channels");

    assert_eq!(channels.len(), 1);
    assert_eq!(channels[0].id, "demo.channel");
    assert_eq!(channels[0].programmes.len(), 1);
    assert_eq!(channels[0].programmes[0].title.as_deref(), Some("Morning Show"));
}

#[test]
fn playlist_epg_input_route_returns_cached_provider_epg() {
    let config = app_config(
        vec![input_with_sources(vec![("provider://demo/xmltv.php?username=user&password=pass", 0)])],
        vec![],
    );
    let found = match playlist_epg(&config, PlaylistEpgRequest::Input("input".to_string())) {
        Ok(PlaylistEpg::Input(found)) => found,
        _ => panic!("there is an input"),
    };
    let mut load = EpgLoad::new(found);
    expect_locate(&load, "http://provider.example/xmltv.php?username=user&password=pass");
    load.advance(EpgLoadEvent::Located(true));
    load.advance(EpgLoadEvent::Parsed(read_channels(
        r#"<tv>
  <channel id="demo.channel">
    <display-name>Demo Channel</display-name>
  </channel>
  <programme start="20260425000000 +0000" stop="20260425010000 +0000" channel="demo.channel">
    <title>Morning Show</title>
  </programme>
</tv>"#,
    )));
    let reply = reply_with_input_epg(load.finish(&found.name));
    assert_eq!(reply.status().code(), 200);
    match reply {
        EpgReply::Channels(channels) => {
            assert_eq!(channels[0].id, "demo.channel");
            assert_eq!(channels[0].programmes[0].title.as_deref(), Some("Morning Show"));
        }
        _ => panic!("there are channels"),
    }
}

fn document(name: &str, icon: &str, programmes: &[(&str, &str, &str)]) -> String {
    let mut text = format!(
        "<tv><channel id=\"demo.channel\"><display-name>{}</display-name><icon src=\"{}\" /></channel>",
        name, icon,
    );
    for (start, stop, title) in programmes {
        text.push_str(&format!(
            "<programme start=\"{}\" stop=\"{}\" channel=\"demo.channel\"><title>{}</title></programme>",
            start, stop, title,
        ));
    }
    text.push_str("</tv>");
    text
}

#[test]
fn playlist_epg_input_route_merges_multiple_cached_sources_by_priority() {
    let input = input_with_sources(vec![
        ("provider://demo/xmltv-secondary.php?username=user&password=pass", 10),
        ("provider://demo/xmltv-primary.php?username=user&password=pass", 0),
        ("provider://demo/xmltv-same-priority.php?username=user&password=pass", 0),
    ]);
    let p0 = "20260425000000 +0000";
    let p1 = "20260425010000 +0000";
    let p2 = "20260425020000 +0000";
    let p3 = "20260425030000 +0000";
    let mut load = EpgLoad::new(&input);
    expect_locate(&load, "http://provider.example/xmltv-secondary.php?username=user&password=pass");
    load.advance(EpgLoadEvent::Located(true));
    load.advance(EpgLoadEvent::Parsed(read_channels(&document(
        "Secondary Channel",
        "http://secondary/icon.png",
        &[(p0, p1, "Secondary Show")],
    ))));
    expect_locate(&load, "http://provider.example/xmltv-primary.php?username=user&password=pass");
    load.advance(EpgLoadEvent::Located(true));
    load.advance(EpgLoadEvent::Parsed(read_channels(&document(
        "Primary Channel",
        "http://primary/icon.png",
        &[(p1, p2, "Primary Show")],
    ))));
    expect_locate(&load, "http://provider.example/xmltv-same-priority.php?username=user&password=pass");
    load.advance(EpgLoadEvent::Located(true));
    load.advance(EpgLoadEvent::Parsed(read_channels(&document(
        "Same Priority Channel",
        "http://same/icon.png",
        &[(p0, p1, "Duplicate Show"), (p2, p3, "Second Show")],
    ))));
    let channels = match reply_with_input_epg(load.finish(&input.name)) {
        EpgReply::Channels(channels) => channels,
        _ => panic!("there are channels"),
    };
    assert_eq!(channels.len(), 1);
    assert_eq!(channels[0].title.as_deref(), Some("Primary Channel"));
    assert_eq!(channels[0].icon.as_deref(), Some("http://primary/icon.png"));
    let titles: Vec<_> =
        channels[0].programmes.iter().filter_map(|programme| programme.title.as_deref()).collect();
    assert_eq!(titles, vec!["Duplicate Show", "Primary Show", "Second Show"]);
}

#[test]
fn url_is_tried_after_the_file() {
    let input = input_with_sources(vec![("http://a", 0), ("http://b", 0), ("http://c", 0)]);
    let mut load = EpgLoad::new(&input);
    load.advance(EpgLoadEvent::Located(true));
    load.advance(EpgLoadEvent::ParseFailed);
    assert!(matches!(load.action(), EpgLoadAction::Fetch(url) if url == "http://a"));
    load.advance(EpgLoadEvent::Located(true));
    assert!(matches!(load.action(), EpgLoadAction::Fetch(url) if url == "http://a"));
    load.advance(EpgLoadEvent::ParseFailed);
    expect_locate(&load, "http://b");
    load.advance(EpgLoadEvent::Parsed(vec![]));
    expect_locate(&load, "http://b");
    load.advance(EpgLoadEvent::Located(false));
    assert!(matches!(load.action(), EpgLoadAction::Fetch(url) if url == "http://b"));
    load.advance(EpgLoadEvent::Parsed(vec![]));
    expect_locate(&load, "http://c");
    load.advance(EpgLoadEvent::LocateFailed);
    assert!(matches!(load.action(), EpgLoadAction::Finish));
    load.advance(EpgLoadEvent::LocateFailed);
    assert_eq!(load.finish("input").ok().expect("loaded").expect("channels").len(), 0);
}

#[test]
fn failed_sources_are_counted() {
    let input = input_with_sources(vec![("http://a", 0), ("http://b", 0)]);
    let mut load = EpgLoad::new(&input);
    load.advance(EpgLoadEvent::LocateFailed);
    load.advance(EpgLoadEvent::Located(false));
    load.advance(EpgLoadEvent::ParseFailed);
    let error = match load.finish("input") {
        Err(error) => error,
        Ok(_) => panic!("all sources failed"),
    };
    assert_eq!(error.failed_sources, 2);
    assert_eq!(error.message(), "All 2 EPG source(s) failed for input 'input'");
    let reply = reply_with_input_epg(Err(error));
    assert_eq!(reply.status().code(), 500);
    assert_eq!(reply.error_text(), Some("Failed to load EPG"));
}

#[test]
fn input_without_sources_has_no_guide() {
    let without = EpgLoad::new(&demo_input());
    assert!(matches!(without.action(), EpgLoadAction::Finish));
    assert!(matches!(without.finish("input"), Ok(None)));
    let empty = EpgLoad::new(&input_with_sources(vec![]));
    assert!(matches!(empty.finish("input"), Ok(None)));
    let reply = reply_with_input_epg(Ok::<Option<Vec<EpgChannel>>, EpgLoadError>(None));
    assert_eq!(reply.status().code(), 204);
}

#[test]
fn custom_guide_is_sent_or_fails() {
    let sent = reply_with_custom_epg(Some(vec![]));
    assert_eq!((sent.status().code(), sent.error_text()), (200, None));
    let failed = reply_with_custom_epg(None);
    assert_eq!((failed.status().code(), failed.error_text()), (500, Some("Failed to load EPG")));
}

#[test]
fn request_for_a_url_leads_to_a_stream_or_a_url() {
    let config = demo_config(vec![]);
    let stream = PlaylistUrlResolveRequest::Webplayer {
        target_id: 3,
        virtual_id: 4,
        cluster: XtreamCluster::Series,
    };
    assert!(matches!(
        playlist_resolve_url(&config, stream),
        UrlAnswer::Webplayer { target_id: 3, virtual_id: 4, cluster: XtreamCluster::Series }
    ));
    let url = PlaylistUrlResolveRequest::Provider {
        playlist_request: PlaylistRequest::Input("input".to_string()),
        url: "provider://demo/x".to_string(),
    };
    assert!(matches!(
        playlist_resolve_url(&config, url),
        UrlAnswer::Url(found) if found == "http://provider.example/x"
    ));
}

#[test]
fn first_of_several_sources_and_inputs_counts() {
    let config = AppConfig {
        inputs: vec![
            input(1, "same", vec![provider("p", "http://one")]),
            input(2, "same", vec![provider("p", "http://two")]),
            input(3, "third", vec![provider("q", "http://three")]),
        ],
        sources: vec![
            ConfigSource { inputs: vec!["missing".to_string()], targets: vec![] },
            ConfigSource {
                inputs: vec!["third".to_string(), "missing".to_string()],
                targets: vec![target(5, vec![])],
            },
            ConfigSource { inputs: vec!["same".to_string()], targets: vec![target(5, vec![])] },
        ],
    };
    assert_eq!(config.get_input_by_name("same").map(|input| input.id), Some(1));
    let inputs = config.get_inputs_for_target("target").expect("inputs");
    assert_eq!(inputs.iter().map(|input| input.id).collect::<Vec<_>>(), vec![3]);
    assert!(config.get_inputs_for_target("other").is_none());
    assert!(config.get_target_by_id(6).is_none());
    assert_eq!(
        resolve_provider_url_for_request(&config, &PlaylistRequest::Target(5), "provider://q/a"),
        "http://three/a",
    );
}
