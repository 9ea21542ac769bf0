//! Names of channels in the form in which they are compared.
use crate::external::{
    deunicode_string, in_ascii, lowered, regex_compiles, regex_is_valid, regex_replace_all,
    regex_replaced,
};
use crate::model::{view_option, views};
use crate::text::{
    combine, find_alphanumeric, find_char, first_alphanumeric, law_trim_is_idempotent,
    law_trim_keeps_characters, lemma_first_alphanumeric, lemma_position, position_of, remove_term,
    to_chars, trim, trim_chars, trimmed, without_term,
};
use vstd::prelude::*;
use vstd::utf8::is_ascii_chars;

verus! {

/// What becomes of the country code in front of a channel name.
pub enum EpgNamePrefix {
    /// It stays where it is.
    Ignore,
    /// It goes to the end, behind this separator.
    Suffix(String),
    /// It stays in front, before this separator.
    Prefix(String),
}

/// An [`EpgNamePrefix`] as a mathematical value.
pub enum SpecNamePrefix {
    Ignore,
    Suffix(Seq<char>),
    Prefix(Seq<char>),
}

impl View for EpgNamePrefix {
    type V = SpecNamePrefix;

    open spec fn view(&self) -> SpecNamePrefix {
        match *self {
            EpgNamePrefix::Ignore => SpecNamePrefix::Ignore,
            EpgNamePrefix::Suffix(separator) => SpecNamePrefix::Suffix(separator@),
            EpgNamePrefix::Prefix(separator) => SpecNamePrefix::Prefix(separator@),
        }
    }
}

/// What stands in the place of what is cut out of a name.
pub const NOTHING: &'static str = "";

/// A text without what a regular expression matches.
pub open spec fn removed(pattern: Seq<char>, text: Seq<char>) -> Seq<char> {
    regex_replaced(pattern, text, NOTHING@)
}

/// A regular expression that compiles.
pub struct NormalizeRegex {
    pattern: String,
}

impl View for NormalizeRegex {
    type V = Seq<char>;

    closed spec fn view(&self) -> Seq<char> {
        self.pattern@
    }
}

impl NormalizeRegex {
    #[verifier::type_invariant]
    spec fn compiles(&self) -> bool {
        regex_is_valid(self.pattern@)
    }

    /// The regular expression with this pattern, if it is one.
    pub fn new(pattern: String) -> (regex: Option<NormalizeRegex>)
        ensures
            match regex {
                Some(r) => regex_is_valid(pattern@) && r@ == pattern@,
                None => !regex_is_valid(pattern@),
            },
    {
        if regex_compiles(pattern.as_str()) {
            Some(NormalizeRegex { pattern })
        } else {
            None
        }
    }

    /// A text without what the expression matches.
    pub fn remove_all(&self, text: &str) -> (r: String)
        ensures
            r@ == removed(self@, text@),
            forall|c: char| r@.contains(c) ==> text@.contains(c),
    {
        proof {
            use_type_invariant(self);
            reveal_strlit("");
        }
        regex_replace_all(self.pattern.as_str(), text, NOTHING)
    }
}

/// How channels are matched by name.
pub struct EpgSmartMatchConfig {
    /// Whether channels are matched by name at all.
    pub enabled: bool,
    /// Whether names that only sound alike and resemble each other match.
    pub fuzzy_matching: bool,
    /// The similarity in percent that a fuzzy match needs.
    pub match_threshold: u16,
    /// The similarity in percent at which no better match is looked for.
    pub best_match_threshold: u16,
    /// What becomes of a country code in front of a name.
    pub name_prefix: EpgNamePrefix,
    /// The characters that can part a country code from the name.
    pub name_prefix_separator: Vec<char>,
    /// The prefixes that are country codes.
    pub country_codes: Vec<String>,
    /// Terms that are no part of a name, such as those for a resolution.
    pub strip: Vec<String>,
    /// What is cut out of a name.
    pub normalize_regex: NormalizeRegex,
}

/// An [`EpgSmartMatchConfig`] as a mathematical value.
pub struct SpecSmartMatch {
    pub enabled: bool,
    pub fuzzy_matching: bool,
    pub match_threshold: u16,
    pub best_match_threshold: u16,
    pub name_prefix: SpecNamePrefix,
    pub name_prefix_separator: Seq<char>,
    pub country_codes: Seq<Seq<char>>,
    pub strip: Seq<Seq<char>>,
    pub normalize_regex: Seq<char>,
}

impl View for EpgSmartMatchConfig {
    type V = SpecSmartMatch;

    open spec fn view(&self) -> SpecSmartMatch {
        SpecSmartMatch {
            enabled: self.enabled,
            fuzzy_matching: self.fuzzy_matching,
            match_threshold: self.match_threshold,
            best_match_threshold: self.best_match_threshold,
            name_prefix: self.name_prefix@,
            name_prefix_separator: self.name_prefix_separator@,
            country_codes: views(self.country_codes@),
            strip: views(self.strip@),
            normalize_regex: self.normalize_regex@,
        }
    }
}

/// A name parted at the first `delimiter` after its first letter or number: what stands before
/// it and what stands behind it, if the former is a country code and the latter is not blank.
pub open spec fn split_at_delimiter(
    input: Seq<char>,
    delimiter: char,
    country_codes: Seq<Seq<char>>,
) -> Option<(Seq<char>, Seq<char>)> {
    let start = first_alphanumeric(input, 0);
    match position_of(input, delimiter, start) {
        Some(at) => {
            let prefix = trimmed(input.subrange(start, at));
            let rest = trimmed(input.subrange(at + 1, input.len() as int));
            if rest.len() > 0 && country_codes.contains(prefix) {
                Some((prefix, rest))
            } else {
                None
            }
        },
        None => None,
    }
}

/// A name parted at the first of the delimiters, in their order, that parts it.
pub open spec fn first_split(
    input: Seq<char>,
    delimiters: Seq<char>,
    country_codes: Seq<Seq<char>>,
) -> Option<(Seq<char>, Seq<char>)>
    decreases delimiters.len(),
{
    if delimiters.len() == 0 {
        None
    } else {
        match split_at_delimiter(input, delimiters[0], country_codes) {
            Some(parts) => Some(parts),
            None => first_split(input, delimiters.skip(1), country_codes),
        }
    }
}

/// Whether a text is among `texts`.
pub(crate) fn contains_text(texts: &Vec<String>, wanted: &String) -> (r: bool)
    ensures
        r == views(texts@).contains(wanted@),
{
    for i in 0..texts.len()
        invariant
            forall|k: int| 0 <= k < i ==> (#[trigger] texts@[k])@ != wanted@,
    {
        if texts[i] == *wanted {
            assert(views(texts@)[i as int] == wanted@);
            return true;
        }
    }
    assert(!views(texts@).contains(wanted@)) by {
        if views(texts@).contains(wanted@) {
            let k = choose|k: int| 0 <= k < texts@.len() && views(texts@)[k] == wanted@;
            assert(texts@[k]@ == wanted@);
        }
    }
    false
}

/// Parts a name at the first delimiter that stands behind a country code. Without one, the name
/// comes back as it is.
pub fn split_by_first_match(
    input: &str,
    delimiters: &Vec<char>,
    country_codes: &Vec<String>,
) -> (parts: (Option<String>, String))
    ensures
        match first_split(input@, delimiters@, views(country_codes@)) {
            Some((prefix, rest)) => view_option(parts.0) == Some(prefix) && parts.1@ == rest,
            None => parts.0 is None && parts.1@ == input@,
        },
{
    let content = to_chars(input);
    let length: usize = content.len();
    let start = find_alphanumeric(&content);
    let ghost codes = views(country_codes@);
    assert(delimiters@.skip(0) == delimiters@);
    for i in 0..delimiters.len()
        invariant
            content@ == input@,
            length == content@.len(),
            start <= length,
            start == first_alphanumeric(input@, 0),
            codes == views(country_codes@),
            first_split(input@, delimiters@, codes) == first_split(
                input@,
                delimiters@.skip(i as int),
                codes,
            ),
    {
        let delimiter = delimiters[i];
        let ghost left = delimiters@.skip(i as int);
        assert(left[0] == delimiter);
        assert(left.skip(1) == delimiters@.skip(i + 1));
        if let Some(index) = find_char(&content, delimiter, start) {
            let right = trim_chars(&content, index + 1, length);
            if !right.as_str().is_empty() {
                let prefix = trim_chars(&content, start, index);
                if contains_text(country_codes, &prefix) {
                    return (Some(prefix), right);
                }
            }
        }
    }
    (None, input.to_owned())
}

/// A name without the country code in front of it, and the country code.
pub open spec fn parted_name(name: Seq<char>, config: SpecSmartMatch) -> (
    Seq<char>,
    Option<Seq<char>>,
) {
    if config.name_prefix is Ignore {
        (name, None)
    } else {
        match first_split(name, config.name_prefix_separator, config.country_codes) {
            Some((prefix, rest)) => (rest, Some(prefix)),
            None => (name, None),
        }
    }
}

/// Parts the country code from a name, unless the configuration leaves it there.
pub fn name_prefix(name: &str, smart_config: &EpgSmartMatchConfig) -> (parts: (
    String,
    Option<String>,
))
    ensures
        (parts.0@, view_option(parts.1)) == parted_name(name@, smart_config@),
{
    match &smart_config.name_prefix {
        EpgNamePrefix::Ignore => (name.to_owned(), None),
        _ => {
            let (prefix, suffix) = split_by_first_match(
                name,
                &smart_config.name_prefix_separator,
                &smart_config.country_codes,
            );
            match prefix {
                Some(code) => (suffix, Some(code)),
                None => (name.to_owned(), None),
            }
        },
    }
}

/// A text without any of the terms, one after the other.
pub open spec fn without_terms(text: Seq<char>, terms: Seq<Seq<char>>) -> Seq<char>
    decreases terms.len(),
{
    if terms.len() == 0 {
        text
    } else {
        without_term(without_terms(text, terms.drop_last()), terms.last())
    }
}

/// A cleaned name without the stripped terms, and with the country code where it belongs.
pub open spec fn composed_name(
    cleaned: Seq<char>,
    country_code: Option<Seq<char>>,
    config: SpecSmartMatch,
) -> Seq<char> {
    let name = without_terms(cleaned, config.strip);
    match country_code {
        None => name,
        Some(code) => match config.name_prefix {
            SpecNamePrefix::Ignore => name,
            SpecNamePrefix::Suffix(separator) => name + separator + code,
            SpecNamePrefix::Prefix(separator) => code + separator + name,
        },
    }
}

/// Strips the terms that are no part of a name and puts the country code where it belongs.
pub fn compose_channel_name(
    cleaned: &str,
    country_code: Option<&str>,
    config: &EpgSmartMatchConfig,
) -> (name: String)
    ensures
        name@ == composed_name(cleaned@, view_option(country_code), config@),
{
    let mut name = cleaned.to_owned();
    let ghost terms = views(config.strip@);
    for i in 0..config.strip.len()
        invariant
            terms == views(config.strip@),
            name@ == without_terms(cleaned@, terms.take(i as int)),
    {
        assert(terms.take(i + 1).drop_last() =~= terms.take(i as int));
        name = remove_term(name.as_str(), config.strip[i].as_str());
    }
    assert(terms.take(terms.len() as int) =~= terms);
    match country_code {
        None => name,
        Some(code) => match &config.name_prefix {
            EpgNamePrefix::Ignore => name,
            EpgNamePrefix::Suffix(separator) => combine(separator.as_str(), name.as_str(), code),
            EpgNamePrefix::Prefix(separator) => combine(separator.as_str(), code, name.as_str()),
        },
    }
}

/// A name in the form in which names are compared: in lower case ASCII, without what the
/// configuration cuts out of names, and with the country code where it belongs.
pub open spec fn normalized_name(name: Seq<char>, config: SpecSmartMatch) -> Seq<char> {
    let plain = lowered(in_ascii(trimmed(name)));
    let (channel_name, country_code) = parted_name(plain, config);
    composed_name(removed(config.normalize_regex, channel_name), country_code, config)
}

/// Whether what a country code is joined to a name with is ASCII.
pub open spec fn separator_is_ascii(prefix: SpecNamePrefix) -> bool {
    match prefix {
        SpecNamePrefix::Ignore => true,
        SpecNamePrefix::Suffix(separator) => is_ascii_chars(separator),
        SpecNamePrefix::Prefix(separator) => is_ascii_chars(separator),
    }
}

proof fn lemma_lowered_is_ascii(text: Seq<char>)
    requires
        is_ascii_chars(text),
    ensures
        is_ascii_chars(lowered(text)),
{
    assert forall|i: int| 0 <= i < text.len() implies (#[trigger] lowered(text)[i]) <= '\x7f' by {
        assert(text[i] <= '\x7f');
    }
}

proof fn lemma_split_is_ascii(
    input: Seq<char>,
    delimiters: Seq<char>,
    country_codes: Seq<Seq<char>>,
)
    requires
        is_ascii_chars(input),
    ensures
        match first_split(input, delimiters, country_codes) {
            Some((prefix, rest)) => is_ascii_chars(prefix) && is_ascii_chars(rest),
            None => true,
        },
    decreases delimiters.len(),
{
    if delimiters.len() > 0 {
        let start = first_alphanumeric(input, 0);
        lemma_first_alphanumeric(input, 0);
        if let Some(at) = position_of(input, delimiters[0], start) {
            lemma_position(input, delimiters[0], start);
            lemma_trimmed_is_ascii(input.subrange(start, at));
            lemma_trimmed_is_ascii(input.subrange(at + 1, input.len() as int));
        }
        lemma_split_is_ascii(input, delimiters.skip(1), country_codes);
    }
}

proof fn lemma_part_is_ascii(part: Seq<char>, whole: Seq<char>)
    requires
        is_ascii_chars(whole),
        forall|c: char| part.contains(c) ==> whole.contains(c),
    ensures
        is_ascii_chars(part),
{
    assert forall|i: int| 0 <= i < part.len() implies '\0' <= (#[trigger] part[i]) <= '\x7f' by {
        assert(part.contains(part[i]));
        let k = whole.index_of(part[i]);
        assert(whole[k] <= '\x7f');
    }
}

proof fn lemma_trimmed_is_ascii(text: Seq<char>)
    requires
        is_ascii_chars(text),
    ensures
        is_ascii_chars(trimmed(text)),
{
    law_trim_keeps_characters(text);
}

proof fn lemma_without_term_is_ascii(text: Seq<char>, term: Seq<char>)
    requires
        is_ascii_chars(text),
    ensures
        is_ascii_chars(without_term(text, term)),
    decreases text.len(),
{
    if term.len() == 0 || text.len() < term.len() {
    } else if text.take(term.len() as int) == term {
        lemma_without_term_is_ascii(text.skip(term.len() as int), term);
    } else {
        lemma_without_term_is_ascii(text.skip(1), term);
    }
}

proof fn lemma_without_terms_is_ascii(text: Seq<char>, terms: Seq<Seq<char>>)
    requires
        is_ascii_chars(text),
    ensures
        is_ascii_chars(without_terms(text, terms)),
    decreases terms.len(),
{
    if terms.len() > 0 {
        lemma_without_terms_is_ascii(text, terms.drop_last());
        lemma_without_term_is_ascii(without_terms(text, terms.drop_last()), terms.last());
    }
}

/// Brings a name into the form in which names are compared. It is ASCII, unless a separator is
/// not.
pub fn normalize_channel_name(name: &str, normalize_config: &EpgSmartMatchConfig) -> (normalized:
    String)
    ensures
        normalized@ == normalized_name(name@, normalize_config@),
        separator_is_ascii(normalize_config@.name_prefix) ==> is_ascii_chars(normalized@),
{
    let visible = trim(name);
    let ascii = deunicode_string(visible.as_str());
    let plain = ascii.to_lowercase();
    let (channel_name, suffix) = name_prefix(plain.as_str(), normalize_config);
    let cleaned = normalize_config.normalize_regex.remove_all(channel_name.as_str());
    proof {
        lemma_lowered_is_ascii(ascii@);
        lemma_split_is_ascii(
            plain@,
            normalize_config@.name_prefix_separator,
            normalize_config@.country_codes,
        );
        lemma_part_is_ascii(cleaned@, channel_name@);
        lemma_without_terms_is_ascii(cleaned@, normalize_config@.strip);
    }
    let country_code = match &suffix {
        Some(code) => Some(code.as_str()),
        None => None,
    };
    compose_channel_name(cleaned.as_str(), country_code, normalize_config)
}

/// What stands before a split is a country code; what stands behind it is not blank; and neither
/// has white space at its ends.
pub proof fn law_parts_of_a_split(
    input: Seq<char>,
    delimiters: Seq<char>,
    country_codes: Seq<Seq<char>>,
)
    ensures
        match first_split(input, delimiters, country_codes) {
            Some((prefix, rest)) => {
                &&& country_codes.contains(prefix)
                &&& rest.len() > 0
                &&& trimmed(prefix) == prefix
                &&& trimmed(rest) == rest
            },
            None => true,
        },
    decreases delimiters.len(),
{
    if delimiters.len() > 0 {
        let start = first_alphanumeric(input, 0);
        if let Some(at) = position_of(input, delimiters[0], start) {
            law_trim_is_idempotent(input.subrange(start, at));
            law_trim_is_idempotent(input.subrange(at + 1, input.len() as int));
        }
        law_parts_of_a_split(input, delimiters.skip(1), country_codes);
    }
}

} // verus!
