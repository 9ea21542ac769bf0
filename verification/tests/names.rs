use rphonetic::{Encoder, Metaphone};
use tvguide::cache::EpgIdCache;
use tvguide::fuzzy::{select_fuzzy_match, ScoredName};
use tvguide::model::TVGuide;
use tvguide::normalize::{
    compose_channel_name, name_prefix, normalize_channel_name, split_by_first_match,
    EpgNamePrefix, EpgSmartMatchConfig, NormalizeRegex,
};
use tvguide::similarity::{name_similarity, percent};
use tvguide::tag::XmlTag;
use tvguide::text::{remove_term, same_text, starts_with, trim};

fn texts(items: &[&str]) -> Vec<String> {
    items.iter().map(|item| item.to_string()).collect()
}

fn config(enabled: bool, name_prefix: EpgNamePrefix) -> EpgSmartMatchConfig {
    EpgSmartMatchConfig {
        enabled,
        fuzzy_matching: false,
        match_threshold: 80,
        best_match_threshold: 95,
        name_prefix,
        name_prefix_separator: vec![':', '|', '-'],
        country_codes: texts(&["ru", "sat", "4k", "bu", "bg", "us"]),
        strip: texts(&["3840p", "uhd", "fhd", "hd", "sd", "4k", "plus", "raw"]),
        normalize_regex: NormalizeRegex::new("[^a-zA-Z0-9\\-]".to_string()).expect("regex"),
    }
}

fn tag_with_names(names: &[&str]) -> XmlTag {
    let mut tag = XmlTag::new("channel".to_string(), None);
    for name in names {
        tag.add_normalized_id(name.to_string());
    }
    tag
}

#[test]
fn parse_normalize() {
    let epg_normalize = config(false, EpgNamePrefix::Ignore);
    let normalized = normalize_channel_name("Love Nature", &epg_normalize);
    assert_eq!(normalized, "lovenature".to_string());
}

#[test]
fn normalize() {
    let epg_smart_cfg = config(true, EpgNamePrefix::Suffix(".".to_string()));
    assert_eq!("supersport6.ru", normalize_channel_name("RU: SUPERSPORT 6 ᴿᴬᵂ", &epg_smart_cfg));
    assert_eq!("odisea.sat", normalize_channel_name("SAT: ODISEA ᴿᴬᵂ", &epg_smart_cfg));
    assert_eq!("odisea.4k", normalize_channel_name("4K: ODISEA ᵁᴴᴰ ³⁸⁴⁰ᴾ", &epg_smart_cfg));
    assert_eq!("odisea", normalize_channel_name("ODISEA ᵁᴴᴰ ³⁸⁴⁰ᴾ", &epg_smart_cfg));
    assert_eq!("odisea.bu", normalize_channel_name("BU | ODISEA ᵁᴴᴰ ³⁸⁴⁰ᴾ", &epg_smart_cfg));
    assert_eq!("odisea.bg", normalize_channel_name("BG | ODISEA ᵁᴴᴰ ³⁸⁴⁰ᴾ", &epg_smart_cfg));
}

#[test]
fn test_metaphone() {
    let metaphone = Metaphone::default();
    let epg_smart_cfg = config(true, EpgNamePrefix::Suffix(".".to_string()));
    let cache = EpgIdCache::new(config(true, EpgNamePrefix::Suffix(".".to_string())));
    for name in [
        "RU: SUPERSPORT 6 ᴿᴬᵂ",
        "SAT: ODISEA ᴿᴬᵂ",
        "4K: ODISEA ᵁᴴᴰ ³⁸⁴⁰ᴾ",
        "ODISEA ᵁᴴᴰ ³⁸⁴⁰ᴾ",
        "BU | ODISEA ᵁᴴᴰ ³⁸⁴⁰ᴾ",
        "BG | ODISEA ᵁᴴᴰ ³⁸⁴⁰ᴾ",
    ] {
        let normalized = normalize_channel_name(name, &epg_smart_cfg);
        let code = metaphone.encode(&normalized);
        println!("{}", code);
        assert_eq!(cache.phonetic(&normalized), code);
    }
}

#[test]
fn country_code_goes_where_it_belongs() {
    let name = "US: Arte Concert HD";
    let normalized = |prefix| normalize_channel_name(name, &config(true, prefix));
    assert_eq!(normalized(EpgNamePrefix::Ignore), "usarteconcert");
    assert_eq!(normalized(EpgNamePrefix::Suffix(".".to_string())), "arteconcert.us");
    assert_eq!(normalized(EpgNamePrefix::Prefix("_".to_string())), "us_arteconcert");
}

#[test]
fn names_are_transliterated_and_lowered() {
    let plain = config(true, EpgNamePrefix::Ignore);
    assert_eq!(normalize_channel_name("  ČT Sport  ", &plain), "ctsport");
    assert_eq!(normalize_channel_name("", &plain), "");
    assert_eq!(normalize_channel_name(" \t ", &plain), "");
    assert_eq!(normalize_channel_name("Discovery+ Plus", &plain), "discovery");
}

#[test]
fn split_needs_a_country_code_and_a_rest() {
    let delimiters = vec!['.', '-', '_'];
    let codes = texts(&["US", "DE"]);
    let (prefix, rest) = split_by_first_match("US.HBO", &delimiters, &codes);
    assert_eq!(prefix.as_deref(), Some("US"));
    assert_eq!(rest, "HBO");
    let (prefix, rest) = split_by_first_match("HBO", &delimiters, &codes);
    assert_eq!(prefix, None);
    assert_eq!(rest, "HBO");
    assert_eq!(split_by_first_match("US.", &delimiters, &codes), (None, "US.".to_string()));
    assert_eq!(split_by_first_match(" FR-TF1 ", &delimiters, &codes), (None, " FR-TF1 ".to_string()));
    assert_eq!(
        split_by_first_match("|| DE _ Das.Erste - HD ", &delimiters, &codes),
        (Some("DE".to_string()), "Das.Erste - HD".to_string()),
    );
    assert_eq!(
        split_by_first_match("US-DE.X", &delimiters, &codes),
        (Some("US".to_string()), "DE.X".to_string()),
    );
}

#[test]
fn prefix_is_left_alone_if_it_is_ignored() {
    let ignoring = config(true, EpgNamePrefix::Ignore);
    assert_eq!(name_prefix("us: hbo", &ignoring), ("us: hbo".to_string(), None));
    let moving = config(true, EpgNamePrefix::Suffix("-".to_string()));
    assert_eq!(name_prefix("us: hbo", &moving), ("hbo".to_string(), Some("us".to_string())));
    assert_eq!(name_prefix("xx: hbo", &moving), ("xx: hbo".to_string(), None));
}

#[test]
fn terms_are_stripped_one_after_the_other() {
    let plain = config(true, EpgNamePrefix::Suffix(":".to_string()));
    assert_eq!(compose_channel_name("uhdnews4kraw", Some("us"), &plain), "news:us");
    assert_eq!(compose_channel_name("newssuhdd", None, &plain), "news");
    assert_eq!(remove_term("aaaab", "aa"), "b");
    assert_eq!(remove_term("ababa", "aba"), "ba");
    assert_eq!(remove_term("abc", ""), "abc");
    assert_eq!(remove_term("ab", "abc"), "ab");
}

#[test]
fn texts_are_compared_and_trimmed() {
    assert!(same_text("añb", "añb"));
    assert!(!same_text("a", "b"));
    assert!(!same_text("a", "ab"));
    assert_eq!(trim(" \u{a0}\n a b\t"), "a b");
    assert_eq!(trim(&trim("  x ")), "x");
    assert_eq!(trim("   "), "");
    assert!(starts_with("provider://x", "provider://"));
    assert!(!starts_with("provide", "provider://"));
    assert!(starts_with("", ""));
}

#[test]
fn malformed_pattern_is_no_regex() {
    assert!(NormalizeRegex::new("[".to_string()).is_none());
    let digits = NormalizeRegex::new("[0-9]+".to_string()).expect("regex");
    assert_eq!(digits.remove_all("a12b3"), "ab");
}

#[test]
fn similarity_is_rounded_like_a_double() {
    let names = ["discovery", "discoveri", "discovry", "hbo", "hbo2", "", "ab", "ba", "odisea.sat"];
    for a in names {
        for b in names {
            let exact = (strsim::jaro_winkler(a, b) * 100.0).round() as u16;
            assert_eq!(name_similarity(a, b), std::cmp::min(100, exact), "{} {}", a, b);
        }
    }
    assert_eq!(name_similarity("martha", "marhta"), 96);
}

#[test]
fn percent_agrees_with_floating_point() {
    let mut values: Vec<f64> = vec![0.0, -0.0, 1.0, 0.005, 0.015, 0.995, 0.994999, 1e-300, 5e-324];
    values.extend([2.5, -0.5, f64::INFINITY, f64::NEG_INFINITY, f64::NAN, f64::MIN_POSITIVE]);
    for n in 0..2000 {
        values.push(n as f64 / 2000.0);
        values.push((n as f64 + 0.5) / 1999.0);
    }
    for value in values {
        let expected = std::cmp::min(100, (value * 100.0).round() as u16);
        assert_eq!(percent(value.to_bits()), expected, "{}", value);
    }
}

fn scored(items: &[(&str, u16)]) -> Vec<ScoredName> {
    items.iter().map(|(name, score)| ScoredName { name: name.to_string(), score: *score }).collect()
}

#[test]
fn first_good_enough_name_is_chosen() {
    let names = scored(&[("a", 80), ("b", 96), ("c", 99)]);
    assert_eq!(select_fuzzy_match(&names, 80, 95).as_deref(), Some("b"));
    assert_eq!(select_fuzzy_match(&names, 80, 100).as_deref(), Some("c"));
    assert_eq!(select_fuzzy_match(&names, 100, 101), None);
}

#[test]
fn best_name_is_chosen_and_the_first_among_equals() {
    let names = scored(&[("a", 81), ("b", 90), ("c", 90), ("d", 85)]);
    assert_eq!(select_fuzzy_match(&names, 80, 95).as_deref(), Some("b"));
    assert_eq!(select_fuzzy_match(&names, 91, 95), None);
    assert_eq!(select_fuzzy_match(&scored(&[]), 0, 0), None);
    assert_eq!(select_fuzzy_match(&names, 200, 81).as_deref(), Some("a"));
}

#[test]
fn names_that_sound_alike_match() {
    let mut settings = config(true, EpgNamePrefix::Ignore);
    settings.fuzzy_matching = true;
    let mut cache = EpgIdCache::new(settings);
    cache.want_name("Discovery", None);
    let near = tag_with_names(&["discovry"]);
    assert_eq!(cache.phonetic("discovery"), cache.phonetic("discovry"));
    let (found, name) = TVGuide::find_best_fuzzy_match(&cache, &near);
    assert!(found);
    assert_eq!(name.as_deref(), Some("discovery"));
    assert!(!TVGuide::try_fuzzy_matching(&mut cache, "disc.id", &near, false));
    assert!(!cache.channel_epg_id.contains("disc.id"));
    assert!(TVGuide::try_fuzzy_matching(&mut cache, "disc.id", &near, true));
    assert!(cache.channel_epg_id.contains("disc.id"));
    assert_eq!(cache.normalized.get("discovery"), Some(&Some("disc.id".to_string())));
    let far = tag_with_names(&["zzz"]);
    assert_eq!(TVGuide::find_best_fuzzy_match(&cache, &far), (false, None));
    assert_eq!(
        TVGuide::find_best_fuzzy_match(&cache, &XmlTag::new("channel".to_string(), None)),
        (false, None),
    );
}

#[test]
fn wanted_name_is_matched_exactly() {
    let mut cache = EpgIdCache::new(config(true, EpgNamePrefix::Ignore));
    cache.want_name("Love Nature", Some("known".to_string()));
    cache.want_name("Love  Nature", Some("newer".to_string()));
    assert_eq!(cache.normalized.get("lovenature"), Some(&Some("newer".to_string())));
    assert_eq!(cache.candidates("lovenature").map(|names| names.len()), Some(1));
    assert!(cache.match_with_normalized("id", &texts(&["other", "lovenature"])));
    assert_eq!(cache.normalized.get("lovenature"), Some(&Some("id".to_string())));
    assert!(!cache.match_with_normalized("id2", &texts(&["other"])));
    assert!(!cache.channel_epg_id.contains("id2"));
}

#[test]
fn name_that_is_not_ascii_sounds_like_its_transliteration() {
    let mut cache = EpgIdCache::new(config(true, EpgNamePrefix::Suffix("·".to_string())));
    assert_eq!(cache.phonetic("Joanne"), "JN");
    assert_eq!(cache.phonetic("Joänne"), "JN");
    assert_eq!(cache.phonetic("émission"), cache.phonetic("emission"));
    assert!(cache.candidates("émission").is_none());
    cache.want_name("US: Discovery", None);
    assert!(cache.normalized.contains_key("discovery·us"));
    let near = tag_with_names(&["discovry·us"]);
    assert_eq!(
        TVGuide::find_best_fuzzy_match(&cache, &near),
        (true, Some("discovery·us".to_string())),
    );
}
