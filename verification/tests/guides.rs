use tvguide::cache::EpgIdCache;
use tvguide::model::{Epg, PersistedEpgSource, TVGuide};
use tvguide::normalize::{EpgNamePrefix, EpgSmartMatchConfig, NormalizeRegex};
use tvguide::tvguide::flatten_tvguide;
use tvguide::tag::{XmlTag, XmlTagType};
use tvguide::time::parse_xmltv_time;
use tvguide::xml::{RawAttribute, StartTag, XmlEvent};
use tvguide::xmltv::{collect_tag_attributes, handle_event, parse_tvguide};

fn config(enabled: bool, fuzzy_matching: bool) -> EpgSmartMatchConfig {
    EpgSmartMatchConfig {
        enabled,
        fuzzy_matching,
        match_threshold: 80,
        best_match_threshold: 95,
        name_prefix: EpgNamePrefix::Ignore,
        name_prefix_separator: vec![':', '|', '-'],
        country_codes: vec!["us".to_string()],
        strip: vec!["hd".to_string()],
        normalize_regex: NormalizeRegex::new("[^a-zA-Z0-9\\-]".to_string()).expect("regex"),
    }
}

fn cache_wanting(ids: &[&str]) -> EpgIdCache {
    let mut id_cache = EpgIdCache::new(config(false, false));
    for id in ids {
        id_cache.channel_epg_id.insert(id.to_string());
    }
    id_cache
}

fn source(priority: i16) -> PersistedEpgSource {
    PersistedEpgSource { file_path: "guide.xml".to_string(), priority, logo_override: false }
}

fn bytes(text: &str) -> Option<Vec<u8>> {
    Some(text.as_bytes().to_vec())
}

fn read(id_cache: &mut EpgIdCache, document: &str) -> Option<Epg> {
    TVGuide::process_epg_file(id_cache, &source(0), document.as_bytes())
}

#[test]
fn filter_keeps_same_channel_id_across_sources_for_flattening() {
    let one = r#"<?xml version="1.0" encoding="UTF-8"?>
<tv>
  <channel id="demo.channel">
    <display-name>Demo One</display-name>
  </channel>
  <programme start="20260425000000 +0000" stop="20260425010000 +0000" channel="demo.channel">
    <title>Low Source</title>
  </programme>
</tv>
"#;
    let two = r#"<?xml version="1.0" encoding="UTF-8"?>
<tv>
  <channel id="demo.channel">
    <display-name>Demo Two</display-name>
  </channel>
  <programme start="20260425010000 +0000" stop="20260425020000 +0000" channel="demo.channel">
    <title>High Source</title>
  </programme>
</tv>
"#;
    let tv_guide = TVGuide::new(vec![
        PersistedEpgSource { file_path: "one.xml".to_string(), priority: 10, logo_override: false },
        PersistedEpgSource { file_path: "two.xml".to_string(), priority: 0, logo_override: false },
    ]);
    let mut id_cache = cache_wanting(&["demo.channel"]);

    let epgs = tv_guide.filter(&mut id_cache, &vec![bytes(one), bytes(two)]).expect("filtered epgs");
    assert_eq!(epgs.len(), 2);
    assert_eq!(epgs[0].priority, 0);
    assert_eq!(epgs[1].priority, 10);

    let flattened = flatten_tvguide(epgs).expect("flattened epg");

    assert_eq!(flattened.children.len(), 1);
    assert_eq!(flattened.children[0].programmes.len(), 2);
    let titles: Vec<_> =
        flattened.children[0].programmes.iter().filter_map(|programme| programme.title.as_deref()).collect();
    assert_eq!(titles, vec!["Low Source", "High Source"]);
}

#[test]
fn filter_accumulates_processed_ids_across_sources() {
    let one = r#"<?xml version="1.0" encoding="UTF-8"?>
<tv>
  <channel id="demo.one">
    <display-name>Demo One</display-name>
  </channel>
  <programme start="20260425000000 +0000" stop="20260425010000 +0000" channel="demo.one">
    <title>First Source</title>
  </programme>
</tv>
"#;
    let two = r#"<?xml version="1.0" encoding="UTF-8"?>
<tv>
  <channel id="demo.two">
    <display-name>Demo Two</display-name>
  </channel>
  <programme start="20260425010000 +0000" stop="20260425020000 +0000" channel="demo.two">
    <title>Second Source</title>
  </programme>
</tv>
"#;
    let tv_guide = TVGuide::new(vec![
        PersistedEpgSource { file_path: "one.xml".to_string(), priority: 10, logo_override: false },
        PersistedEpgSource { file_path: "two.xml".to_string(), priority: 0, logo_override: false },
    ]);
    let mut id_cache = cache_wanting(&["demo.one", "demo.two"]);

    let epgs = tv_guide.filter(&mut id_cache, &vec![bytes(one), bytes(two)]).expect("filtered epgs");

    assert_eq!(epgs.len(), 2);
    assert!(id_cache.processed.contains("demo.one"));
    assert!(id_cache.processed.contains("demo.two"));
}

#[test]
fn filter_backfills_metadata_from_duplicate_channel_tags_in_same_source() {
    let document = r#"<?xml version="1.0" encoding="UTF-8"?>
<tv>
  <channel id="demo.channel">
    <display-name>Recovered Title</display-name>
  </channel>
  <channel id="demo.channel">
    <icon src="http://example/icon.png"/>
  </channel>
  <programme start="20260425000000 +0000" stop="20260425010000 +0000" channel="demo.channel">
    <title>Show</title>
  </programme>
</tv>
"#;
    let tv_guide = TVGuide::new(vec![PersistedEpgSource {
        file_path: "duplicate-channel.xml".to_string(),
        priority: 0,
        logo_override: false,
    }]);
    let mut id_cache = cache_wanting(&["demo.channel"]);

    let epgs = tv_guide.filter(&mut id_cache, &vec![bytes(document)]).expect("filtered epg");

    assert_eq!(epgs.len(), 1);
    assert_eq!(epgs[0].children.len(), 1);
    assert_eq!(epgs[0].children[0].title.as_deref(), Some("Recovered Title"));
    assert_eq!(epgs[0].children[0].icon.as_deref(), Some("http://example/icon.png"));
}

#[test]
fn nothing_is_read_if_nothing_is_wanted() {
    let tv_guide = TVGuide::new(vec![source(0)]);
    let mut id_cache = cache_wanting(&[]);
    let contents = vec![bytes("<tv><channel id=\"a\"/></tv>")];
    assert!(tv_guide.filter(&mut id_cache, &contents).is_none());
    id_cache.want_name("Some Name", None);
    assert_eq!(tv_guide.filter(&mut id_cache, &contents).expect("epgs").len(), 0);
}

#[test]
fn files_that_cannot_be_read_are_skipped() {
    let tv_guide = TVGuide::new(vec![source(3), source(1), source(2), source(0)]);
    let mut id_cache = cache_wanting(&["a"]);
    let document = "<tv><channel id=\"A\"/></tv>";
    let contents = vec![bytes(document), None, bytes(document)];
    let epgs = tv_guide.filter(&mut id_cache, &contents).expect("epgs");
    let priorities: Vec<_> = epgs.iter().map(|epg| epg.priority).collect();
    assert_eq!(priorities, vec![2, 3]);
}

#[test]
fn guide_without_wanted_channel_is_none() {
    let mut id_cache = cache_wanting(&["wanted"]);
    assert!(read(&mut id_cache, "<tv><channel id=\"other\"/></tv>").is_none());
    assert!(read(&mut id_cache, "").is_none());
    assert!(!id_cache.processed.contains("other"));
}

#[test]
fn guide_takes_over_priority_logo_and_attributes() {
    let mut id_cache = cache_wanting(&["a"]);
    let epg = TVGuide::process_epg_file(
        &mut id_cache,
        &PersistedEpgSource { file_path: String::new(), priority: -4, logo_override: true },
        b"<tv generator-info-name=\"x &amp; y\" empty=\"\"><channel id=\"a\"/></tv>",
    )
    .expect("epg");
    assert_eq!(epg.priority, -4);
    assert!(epg.logo_override);
    let attributes = epg.attributes.expect("attributes");
    assert_eq!(attributes.get("generator-info-name").map(|name| name.as_str()), Some("x & y"));
    assert!(attributes.get("empty").is_none());
}

#[test]
fn ids_are_compared_in_lower_case() {
    let mut id_cache = cache_wanting(&["demo.ch"]);
    let epg = read(
        &mut id_cache,
        "<tv><channel id=\"Demo.CH\"><display-name>Demo</display-name></channel>\
         <programme start=\"20260425000000 +0200\" stop=\"20260425010000 +0200\" channel=\"DEMO.ch\">\
         <title>First</title><desc>D</desc><title>Last</title></programme></tv>",
    )
    .expect("epg");
    assert_eq!(epg.children[0].id, "demo.ch");
    let programme = &epg.children[0].programmes[0];
    assert_eq!(programme.channel, "demo.ch");
    assert_eq!(programme.start, 1777068000);
    assert_eq!(programme.stop, 1777071600);
    assert_eq!(programme.title.as_deref(), Some("Last"));
    assert_eq!(programme.desc.as_deref(), Some("D"));
}

#[test]
fn programmes_without_channel_or_times_are_dropped() {
    let mut id_cache = cache_wanting(&["a"]);
    let epg = read(
        &mut id_cache,
        "<tv><programme start=\"20260425000000 +0000\" stop=\"20260425010000 +0000\" channel=\"a\"/>\
         <channel id=\"a\"/>\
         <programme start=\"20260425000000 +0000\" channel=\"a\"/>\
         <programme start=\"soon\" stop=\"20260425010000 +0000\" channel=\"a\"/>\
         <programme start=\"20260425000000 +0000\" stop=\"20260425010000 +0000\"/>\
         <programme start=\"20260425000000 +0000\" stop=\"20260425010000 +0000\" channel=\"b\"/>\
         <programme start=\"20260425020000 +0000\" stop=\"20260425030000 +0000\" channel=\"a\"/></tv>",
    )
    .expect("epg");
    assert_eq!(epg.children.len(), 1);
    assert_eq!(epg.children[0].programmes.len(), 1);
    assert_eq!(epg.children[0].programmes[0].start, 1777082400);
    assert_eq!(epg.children[0].programmes[0].title, None);
}

#[test]
fn first_title_and_last_icon_of_a_channel_count() {
    let mut id_cache = cache_wanting(&["a"]);
    let epg = read(
        &mut id_cache,
        "<tv><channel id=\"a\"><display-name>One</display-name><display-name>Two</display-name>\
         <icon src=\"x\"/><icon src=\"y\"/><icon src=\"\"/></channel>\
         <channel id=\"a\"><display-name>Three</display-name><icon src=\"z\"/></channel></tv>",
    )
    .expect("epg");
    assert_eq!(epg.children[0].title.as_deref(), Some("One"));
    assert_eq!(epg.children[0].icon.as_deref(), Some("y"));
}

#[test]
fn channels_are_matched_by_name() {
    let mut id_cache = EpgIdCache::new(config(true, false));
    id_cache.want_name("Love Nature HD", None);
    let epg = read(
        &mut id_cache,
        "<tv><channel id=\"ln.id\"><display-name>LOVE nature</display-name></channel>\
         <channel id=\"other\"><display-name>Other</display-name></channel></tv>",
    )
    .expect("epg");
    assert_eq!(epg.children.len(), 1);
    assert_eq!(epg.children[0].id, "ln.id");
    assert!(id_cache.channel_epg_id.contains("ln.id"));
    assert!(id_cache.processed.contains("ln.id"));
    assert_eq!(id_cache.normalized.get("lovenature"), Some(&Some("ln.id".to_string())));
}

#[test]
fn similar_names_match_only_if_fuzzy_matching_is_on() {
    let document = "<tv><channel id=\"d\"><display-name>Discovry</display-name></channel></tv>";
    let mut exact = EpgIdCache::new(config(true, false));
    exact.want_name("Discovery", None);
    assert!(read(&mut exact, document).is_none());
    let mut fuzzy = EpgIdCache::new(config(true, true));
    fuzzy.want_name("Discovery", None);
    assert_eq!(read(&mut fuzzy, document).expect("epg").children[0].id, "d");
    let mut off = EpgIdCache::new(config(false, true));
    off.want_name("Discovery", None);
    assert!(read(&mut off, document).is_none());
}

#[test]
fn tags_are_handed_out_in_the_order_in_which_they_end() {
    let tags = parse_tvguide(
        b"<tv a=\"1\"><channel id=\"C\"><display-name>N <b>x</b> M</display-name></channel>\
          <channel/><programme channel=\"\"/><other><programme channel=\"P\"/></other></tv>",
    );
    let names: Vec<_> = tags.iter().map(|tag| tag.name.as_str()).collect();
    assert_eq!(names, vec!["tv", "channel", "programme"]);
    assert_eq!(tags[0].get_attribute_value("a").map(|value| value.as_str()), Some("1"));
    assert!(tags[0].children.is_none());
    let children = tags[1].children.as_ref().expect("children");
    assert_eq!(children.len(), 1);
    assert_eq!(children[0].value.as_deref(), Some("NM"));
    assert_eq!(children[0].children.as_ref().expect("children")[0].value.as_deref(), Some("x"));
    assert_eq!(tags[2].get_attribute_value("channel").map(|value| value.as_str()), Some("p"));
}

#[test]
fn backslash_at_the_end_of_a_text_is_an_apostrophe() {
    let tags = parse_tvguide(
        b"<channel id=\"c\"><display-name> It\\ <x/>s </display-name><icon>\\n</icon></channel>",
    );
    let children = tags[0].children.as_ref().expect("children");
    assert_eq!(children[0].value.as_deref(), Some("It&apos; s"));
    assert_eq!(children[1].value.as_deref(), Some("\\n"));
}

#[test]
fn text_that_is_not_utf8_is_left_out() {
    let tags = parse_tvguide(b"<channel id=\"c\"><a>\xff</a><b\xff>ok</b\xff></channel>");
    let children = tags[0].children.as_ref().expect("children");
    assert_eq!(children[0].value, None);
    assert_eq!(children[1].name, "b\u{fffd}");
    assert_eq!(children[1].value.as_deref(), Some("ok"));
}

#[test]
fn more_of_a_document_only_adds_tags() {
    let document = "<tv><channel id=\"a\"/><programme channel=\"a\"/>";
    let shorter = parse_tvguide(document.as_bytes());
    let longer = parse_tvguide(format!("{}<channel id=\"b\"/></tv>", document).as_bytes());
    assert_eq!(shorter.len(), 3);
    assert_eq!(longer.len(), 4);
    for (before, after) in shorter.iter().zip(longer.iter()) {
        assert_eq!(before.name, after.name);
    }
}

#[test]
fn more_of_a_guide_takes_nothing_away() {
    let document = "<tv><channel id=\"a\"><display-name>A</display-name></channel>\
                    <programme start=\"20260425000000 +0000\" stop=\"20260425010000 +0000\" channel=\"a\"/>";
    let first = read(&mut cache_wanting(&["a", "b"]), document).expect("epg");
    let more = format!(
        "{}<channel id=\"b\"/><channel id=\"a\"><display-name>X</display-name></channel>\
         <programme start=\"20260424000000 +0000\" stop=\"20260424010000 +0000\" channel=\"a\"/></tv>",
        document,
    );
    let second = read(&mut cache_wanting(&["a", "b"]), &more).expect("epg");
    assert_eq!(second.children.len(), 2);
    assert_eq!(second.children[0].title, first.children[0].title);
    assert_eq!(second.children[0].programmes.len(), 2);
    assert_eq!(second.children[0].programmes[0].start, first.children[0].programmes[0].start);
}

#[test]
fn guides_read_before_make_no_difference() {
    let document = "<tv><channel id=\"a\"><display-name>A</display-name></channel><channel id=\"b\"/></tv>";
    let mut id_cache = cache_wanting(&["a"]);
    assert!(!id_cache.is_empty());
    let first = read(&mut id_cache, document).expect("epg");
    let second = read(&mut id_cache, document).expect("epg");
    assert_eq!(first.children.len(), 1);
    assert_eq!(second.children.len(), 1);
    assert_eq!(second.children[0].title, first.children[0].title);
    assert!(id_cache.processed.contains("a"));
    assert!(!id_cache.processed.contains("b"));
    assert!(cache_wanting(&[]).is_empty());
}

#[test]
fn ordering_guides_first_changes_nothing() {
    let document = |name: &str| {
        format!("<tv source=\"{}\"><channel id=\"a\"><display-name>{}</display-name></channel></tv>", name, name)
    };
    let contents = || vec![bytes(&document("x")), bytes(&document("y")), bytes(&document("z"))];
    let tv_guide = TVGuide::new(vec![source(2), source(1), source(1)]);
    let sorted = tv_guide.filter(&mut cache_wanting(&["a"]), &contents()).expect("epgs");
    let mut id_cache = cache_wanting(&["a"]);
    let mut unsorted = Vec::new();
    for (content, priority) in contents().iter().zip([2, 1, 1]) {
        let content = content.as_ref().expect("content");
        unsorted.extend(TVGuide::process_epg_file(&mut id_cache, &source(priority), content));
    }
    let one = flatten_tvguide(sorted).expect("epg");
    let other = flatten_tvguide(unsorted).expect("epg");
    assert_eq!(one.children[0].title.as_deref(), Some("y"));
    assert_eq!(other.children[0].title.as_deref(), Some("y"));
    for epg in [one, other] {
        let attributes = epg.attributes.expect("attributes");
        assert_eq!(attributes.get("source").map(|name| name.as_str()), Some("y"));
    }
}

#[test]
fn what_stands_inside_a_tag_changes_nothing_around_it() {
    let tags = parse_tvguide(
        b"<channel id=\"c\" x=\"1\"><a><channel id=\"d\"><e/></channel><b>t</b></a><f/></channel>",
    );
    assert_eq!(tags.len(), 2);
    assert_eq!(tags[0].get_attribute_value("id").map(|id| id.as_str()), Some("d"));
    assert_eq!(tags[1].get_attribute_value("x").map(|value| value.as_str()), Some("1"));
    let names: Vec<_> = tags[1]
        .children
        .as_ref()
        .expect("children")
        .iter()
        .map(|child| child.name.as_str())
        .collect();
    assert_eq!(names, vec!["a", "f"]);
}

#[test]
fn times_are_read_by_the_format_of_guides() {
    assert_eq!(parse_xmltv_time("20260425010000 +0200"), Some(1777071600));
    assert_eq!(parse_xmltv_time("20260425010000 +0000"), Some(1777078800));
    assert_eq!(parse_xmltv_time("2026-04-25 01:00:00 +0000"), None);
    assert_eq!(parse_xmltv_time("20260425010000"), None);
    assert_eq!(parse_xmltv_time(""), None);
}

fn start(name: &str, attributes: &[(&str, &str)]) -> StartTag {
    StartTag {
        name: name.as_bytes().to_vec(),
        attributes: attributes
            .iter()
            .map(|(key, value)| {
                Some(RawAttribute { key: key.as_bytes().to_vec(), value: value.as_bytes().to_vec() })
            })
            .collect(),
    }
}

#[test]
fn case_of_ids_does_not_matter() {
    let channel =
        collect_tag_attributes(&start("channel", &[("id", "ÄRTE.De"), ("x", "Y")]), XmlTagType::Channel);
    let programme =
        collect_tag_attributes(&start("programme", &[("channel", "ärtE.dE")]), XmlTagType::Programme);
    assert_eq!(channel.get("id"), programme.get("channel"));
    assert_eq!(channel.get("id").map(|id| id.as_str()), Some("ärte.de"));
    assert_eq!(channel.get("x").map(|value| value.as_str()), Some("Y"));
}

#[test]
fn empty_attributes_are_left_out() {
    let mut tag = start("channel", &[("id", ""), ("a", "1"), ("b", "")]);
    tag.attributes.push(None);
    let attributes = collect_tag_attributes(&tag, XmlTagType::Channel);
    assert!(attributes.get("id").is_none());
    assert!(attributes.get("b").is_none());
    assert!(!attributes.is_empty());
    assert!(collect_tag_attributes(&start("a", &[("b", "")]), XmlTagType::Ignored).is_empty());
}

#[test]
fn events_other_than_tags_and_texts_count_for_nothing() {
    let mut tags = Vec::new();
    let mut stack = Vec::new();
    handle_event(&mut tags, &mut stack, &XmlEvent::Start(start("channel", &[("id", "c")])));
    for event in [
        XmlEvent::CData,
        XmlEvent::Comment,
        XmlEvent::Decl,
        XmlEvent::Instruction,
        XmlEvent::DocType,
        XmlEvent::Reference,
        XmlEvent::Error,
    ] {
        handle_event(&mut tags, &mut stack, &event);
    }
    assert_eq!((tags.len(), stack.len()), (0, 1));
    handle_event(&mut tags, &mut stack, &XmlEvent::End);
    assert_eq!((tags.len(), stack.len()), (1, 0));
    assert_eq!(tags[0].value, None);
    let document = "<?xml version=\"1.0\"?><!DOCTYPE tv><channel id=\"c\"><a>x<![CDATA[y]]>\
                    <!-- z --><?p q?>&amp;w</a></channel>";
    let read = parse_tvguide(document.as_bytes());
    assert_eq!(read.len(), 1);
    let children = read[0].children.as_ref().expect("children");
    assert_eq!(children[0].value.as_deref(), Some("xw"));
}

#[test]
fn normalized_ids_stay_missing_if_none_is_added() {
    let id_cache = cache_wanting(&["a"]);
    let mut bare = XmlTag::new("channel".to_string(), None);
    TVGuide::prepare_tag(&id_cache, &mut bare, true);
    assert!(bare.normalized_epg_ids.is_none());
    let mut tags = parse_tvguide(
        b"<channel id=\"My Id\"><display-name>A Name</display-name><display-name/></channel>",
    );
    TVGuide::prepare_tag(&id_cache, &mut tags[0], false);
    assert_eq!(tags[0].normalized_epg_ids, Some(vec!["myid".to_string()]));
    TVGuide::prepare_tag(&id_cache, &mut tags[0], true);
    assert_eq!(
        tags[0].normalized_epg_ids,
        Some(vec!["myid".to_string(), "myid".to_string(), "aname".to_string()]),
    );
}
