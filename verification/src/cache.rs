//! What is known of the channels that a guide is wanted for.
use crate::external::{deunicode_string, in_ascii, metaphone, metaphone_code};
use crate::model::{view_option, views};
use crate::normalize::{
    contains_text, normalize_channel_name, normalized_name, EpgSmartMatchConfig, SpecSmartMatch,
};
use vstd::hash_map::StringHashMap;
use vstd::hash_set::StringHashSet;
use vstd::prelude::*;
use vstd::utf8::is_ascii_chars;

verus! {

/// The ids and names of the channels that a guide is wanted for, and what was found for them.
pub struct EpgIdCache {
    /// The guide ids that are wanted.
    pub channel_epg_id: StringHashSet,
    /// The normalized names that are wanted, each with the guide id that was found for it.
    pub normalized: StringHashMap<Option<String>>,
    /// The normalized names by their phonetic code.
    pub phonetics: StringHashMap<Vec<String>>,
    /// The guide ids that a guide has a channel for.
    pub processed: StringHashSet,
    /// How names are matched.
    pub smart_match_config: EpgSmartMatchConfig,
}

/// An [`EpgIdCache`] as a mathematical value.
#[verifier::ext_equal]
pub struct SpecCache {
    pub channel_epg_id: Set<Seq<char>>,
    pub normalized: Map<Seq<char>, Option<Seq<char>>>,
    pub phonetics: Map<Seq<char>, Seq<Seq<char>>>,
    pub processed: Set<Seq<char>>,
    pub smart_match_config: SpecSmartMatch,
}

impl View for EpgIdCache {
    type V = SpecCache;

    open spec fn view(&self) -> SpecCache {
        SpecCache {
            channel_epg_id: self.channel_epg_id@,
            normalized: self.normalized@.map_values(|id: Option<String>| view_option(id)),
            phonetics: self.phonetics@.map_values(|names: Vec<String>| views(names@)),
            processed: self.processed@,
            smart_match_config: self.smart_match_config@,
        }
    }
}

/// The phonetic code of a name. That of a name that is not ASCII is the code of its
/// transliteration.
pub open spec fn phonetic_code(name: Seq<char>) -> Seq<char> {
    if is_ascii_chars(name) {
        metaphone_code(name)
    } else {
        metaphone_code(in_ascii(name))
    }
}

impl SpecCache {
    /// The names that sound like `name`.
    pub open spec fn sounding_like(self, name: Seq<char>) -> Seq<Seq<char>> {
        if self.phonetics.contains_key(phonetic_code(name)) {
            self.phonetics[phonetic_code(name)]
        } else {
            Seq::empty()
        }
    }

    /// The cache after `name` became a wanted name.
    pub open spec fn wanting_name(self, name: Seq<char>, epg_id: Option<Seq<char>>) -> SpecCache {
        let key = normalized_name(name, self.smart_match_config);
        SpecCache {
            normalized: self.normalized.insert(key, epg_id),
            phonetics: if self.sounding_like(key).contains(key) {
                self.phonetics
            } else {
                self.phonetics.insert(phonetic_code(key), self.sounding_like(key).push(key))
            },
            ..self
        }
    }

    /// The cache after `epg_id` was found for the wanted name `key`.
    pub open spec fn matching(self, key: Seq<char>, epg_id: Seq<char>) -> SpecCache {
        SpecCache {
            normalized: self.normalized.insert(key, Some(epg_id)),
            channel_epg_id: self.channel_epg_id.insert(epg_id),
            ..self
        }
    }
}

/// The first of the names that is wanted.
pub open spec fn first_wanted(
    wanted: Map<Seq<char>, Option<Seq<char>>>,
    names: Seq<Seq<char>>,
) -> Option<Seq<char>>
    decreases names.len(),
{
    if names.len() == 0 {
        None
    } else if wanted.contains_key(names[0]) {
        Some(names[0])
    } else {
        first_wanted(wanted, names.skip(1))
    }
}

/// A copy of texts.
fn copy_texts(texts: &Vec<String>) -> (copy: Vec<String>)
    ensures
        views(copy@) == views(texts@),
{
    let mut copy: Vec<String> = Vec::new();
    for i in 0..texts.len()
        invariant
            views(copy@) == views(texts@).take(i as int),
    {
        let ghost before = copy@;
        copy.push(texts[i].clone());
        assert(views(copy@) =~= views(before).push(texts@[i as int]@));
        assert(views(texts@).take(i + 1) =~= views(texts@).take(i as int).push(texts@[i as int]@));
    }
    assert(views(texts@).take(texts@.len() as int) =~= views(texts@));
    copy
}

impl EpgIdCache {
    /// A cache that wants nothing yet.
    pub fn new(smart_match_config: EpgSmartMatchConfig) -> (cache: EpgIdCache)
        ensures
            cache@ == (SpecCache {
                channel_epg_id: Set::empty(),
                normalized: Map::empty(),
                phonetics: Map::empty(),
                processed: Set::empty(),
                smart_match_config: smart_match_config@,
            }),
    {
        let cache = EpgIdCache {
            channel_epg_id: StringHashSet::new(),
            normalized: StringHashMap::new(),
            phonetics: StringHashMap::new(),
            processed: StringHashSet::new(),
            smart_match_config,
        };
        assert(cache@ =~= (SpecCache {
            channel_epg_id: Set::empty(),
            normalized: Map::empty(),
            phonetics: Map::empty(),
            processed: Set::empty(),
            smart_match_config: smart_match_config@,
        }));
        cache
    }

    /// The phonetic code of a name.
    pub fn phonetic(&self, name: &str) -> (code: String)
        ensures
            code@ == phonetic_code(name@),
    {
        if name.is_ascii() {
            metaphone(name)
        } else {
            metaphone(deunicode_string(name).as_str())
        }
    }

    /// The names that sound like `name`.
    pub fn candidates(&self, name: &str) -> (names: Option<&Vec<String>>)
        ensures
            match names {
                Some(found) => views(found@) == self@.sounding_like(name@),
                None => self@.sounding_like(name@) == Seq::<Seq<char>>::empty(),
            },
    {
        self.phonetics.get(self.phonetic(name).as_str())
    }

    /// Makes `name` a wanted name, with the guide id that is known for it.
    pub fn want_name(&mut self, name: &str, epg_id: Option<String>)
        ensures
            final(self)@ == old(self)@.wanting_name(name@, view_option(epg_id)),
    {
        let key = normalize_channel_name(name, &self.smart_match_config);
        let code = self.phonetic(key.as_str());
        let mut names = match self.phonetics.get(code.as_str()) {
            Some(known) => copy_texts(known),
            None => Vec::new(),
        };
        assert(views(names@) =~= self@.sounding_like(key@));
        if !contains_text(&names, &key) {
            names.push(key.clone());
            assert(views(names@) =~= self@.sounding_like(key@).push(key@));
            self.phonetics.insert(code, names);
        }
        self.normalized.insert(key, epg_id);
        assert(self@ =~= old(self)@.wanting_name(name@, view_option(epg_id)));
    }

    /// Whether nothing is wanted.
    pub fn is_empty(&self) -> (r: bool)
        ensures
            r == (self@.channel_epg_id == Set::<Seq<char>>::empty() && self@.normalized
                == Map::<Seq<char>, Option<Seq<char>>>::empty()),
    {
        let r = self.channel_epg_id.is_empty() && self.normalized.is_empty();
        proof {
            if self.channel_epg_id@.is_empty() {
                assert(self@.channel_epg_id =~= Set::<Seq<char>>::empty());
            }
            if self.normalized@.is_empty() {
                assert(self@.normalized =~= Map::<Seq<char>, Option<Seq<char>>>::empty());
            } else {
                assert(self@.normalized.dom() =~= self.normalized@.dom());
            }
        }
        r
    }

    /// Notes that `epg_id` was found for the wanted name `key`.
    pub fn record_match(&mut self, key: &str, epg_id: &str)
        ensures
            final(self)@ == old(self)@.matching(key@, epg_id@),
    {
        self.normalized.insert(key.to_owned(), Some(epg_id.to_owned()));
        self.channel_epg_id.insert(epg_id.to_owned());
        assert(self@ =~= old(self)@.matching(key@, epg_id@));
    }

    /// Notes `epg_id` for the first of the normalized names that is wanted. Without one, nothing
    /// changes.
    pub fn match_with_normalized(&mut self, epg_id: &str, normalized_epg_ids: &Vec<String>) -> (
        matched: bool)
        ensures
            match first_wanted(old(self)@.normalized, views(normalized_epg_ids@)) {
                Some(key) => matched && final(self)@ == old(self)@.matching(key, epg_id@),
                None => !matched && final(self)@ == old(self)@,
            },
    {
        let ghost names = views(normalized_epg_ids@);
        assert(names.skip(0) =~= names);
        for i in 0..normalized_epg_ids.len()
            invariant
                *self == *old(self),
                names == views(normalized_epg_ids@),
                first_wanted(self@.normalized, names) == first_wanted(
                    self@.normalized,
                    names.skip(i as int),
                ),
        {
            let ghost rest = names.skip(i as int);
            assert(rest[0] == normalized_epg_ids@[i as int]@);
            assert(rest.skip(1) =~= names.skip(i + 1));
            assert(self@.normalized.contains_key(rest[0]) == self.normalized@.contains_key(
                rest[0],
            ));
            if self.normalized.contains_key(normalized_epg_ids[i].as_str()) {
                self.record_match(normalized_epg_ids[i].as_str(), epg_id);
                return true;
            }
        }
        false
    }
}

} // verus!
