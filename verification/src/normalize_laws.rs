//! What holds of normalized names.
use crate::external::{alphanumeric, ascii_lower, in_ascii, lowered, regex_replaced, whitespace};
use crate::normalize::{
    composed_name, first_split, normalized_name, parted_name, removed, split_at_delimiter,
    without_terms, SpecNamePrefix, SpecSmartMatch,
};
use crate::text::{first_alphanumeric, position_of, trimmed, without_term};
use crate::text_laws::{
    law_first_alphanumeric_is_the_first, law_position_is_the_first, law_text_without_term_stays,
    law_trim_cuts_all_white_space, stands_at,
};
use vstd::prelude::*;
use vstd::utf8::is_ascii_chars;

verus! {

/// Whether none of the terms stands in a text. An empty term never counts.
pub open spec fn no_term_in(text: Seq<char>, terms: Seq<Seq<char>>) -> bool {
    forall|k: int, at: int|
        0 <= k < terms.len() && terms[k].len() > 0 ==> !(#[trigger] stands_at(text, terms[k], at))
}

/// A text in which none of the terms stands stays whole when they are stripped.
pub proof fn law_text_without_terms_stays(text: Seq<char>, terms: Seq<Seq<char>>)
    requires
        no_term_in(text, terms),
    ensures
        without_terms(text, terms) == text,
    decreases terms.len(),
{
    if terms.len() > 0 {
        let shorter = terms.drop_last();
        assert forall|k: int, at: int|
            0 <= k < shorter.len() && shorter[k].len() > 0 implies !(#[trigger] stands_at(
            text,
            shorter[k],
            at,
        )) by {
            assert(!stands_at(text, terms[k], at));
        }
        law_text_without_terms_stays(text, shorter);
        let last = terms[terms.len() - 1];
        assert forall|at: int| !(#[trigger] stands_at(text, last, at)) || last.len() == 0 by {
            if last.len() > 0 {
                assert(!stands_at(text, terms[terms.len() - 1], at));
            }
        }
        law_text_without_term_stays(text, last);
    }
}

/// Terms are stripped one after the other, in their order: stripping some and then others is
/// stripping them all, and stripping one is cutting it out.
pub proof fn law_terms_are_stripped_in_order(
    text: Seq<char>,
    first: Seq<Seq<char>>,
    second: Seq<Seq<char>>,
    term: Seq<char>,
)
    ensures
        without_terms(text, first + second) == without_terms(without_terms(text, first), second),
        without_terms(text, seq![term]) == without_term(text, term),
        without_terms(text, Seq::empty()) == text,
    decreases second.len(),
{
    assert(seq![term].drop_last() =~= Seq::<Seq<char>>::empty());
    assert(without_terms(text, Seq::empty()) == text);
    if second.len() == 0 {
        assert(first + second =~= first);
    } else {
        law_terms_are_stripped_in_order(text, first, second.drop_last(), term);
        assert((first + second).drop_last() =~= first + second.drop_last());
        assert((first + second).last() == second.last());
    }
}

/// A cleaned name in which none of the stripped terms stands comes back whole, alone or joined to
/// the country code by the separator, on the side that is configured.
pub proof fn law_name_without_terms_comes_back_whole(
    cleaned: Seq<char>,
    code: Seq<char>,
    config: SpecSmartMatch,
)
    requires
        no_term_in(cleaned, config.strip),
    ensures
        composed_name(cleaned, None, config) == cleaned,
        match config.name_prefix {
            SpecNamePrefix::Ignore => composed_name(cleaned, Some(code), config) == cleaned,
            SpecNamePrefix::Suffix(separator) => {
                let name = composed_name(cleaned, Some(code), config);
                &&& name == cleaned + separator + code
                &&& name.len() == cleaned.len() + separator.len() + code.len()
            },
            SpecNamePrefix::Prefix(separator) => {
                let name = composed_name(cleaned, Some(code), config);
                &&& name == code + separator + cleaned
                &&& name.len() == cleaned.len() + separator.len() + code.len()
            },
        },
{
    law_text_without_terms_stays(cleaned, config.strip);
}

/// The country code is joined to the very name that comes out without one.
pub proof fn law_country_code_is_joined_to_the_name(
    cleaned: Seq<char>,
    code: Seq<char>,
    config: SpecSmartMatch,
)
    ensures
        ({
            let alone = composed_name(cleaned, None, config);
            let joined = composed_name(cleaned, Some(code), config);
            match config.name_prefix {
                SpecNamePrefix::Ignore => joined == alone,
                SpecNamePrefix::Suffix(separator) => joined == alone + separator + code,
                SpecNamePrefix::Prefix(separator) => joined == code + separator + alone,
            }
        }),
{
}

/// Whether a name is split at `at`: a delimiter stands there, for the first time from the first
/// letter or number at `start` on; what is between the two is a country code, but for white space
/// around it, and what is behind the delimiter is not blank.
pub open spec fn is_split(
    input: Seq<char>,
    delimiter: char,
    country_codes: Seq<Seq<char>>,
    start: int,
    at: int,
) -> bool {
    &&& 0 <= start <= at < input.len()
    &&& forall|k: int| 0 <= k < start ==> !alphanumeric(#[trigger] input[k])
    &&& alphanumeric(input[start])
    &&& input[at] == delimiter
    &&& forall|k: int| start <= k < at ==> (#[trigger] input[k]) != delimiter
    &&& country_codes.contains(trimmed(input.subrange(start, at)))
    &&& trimmed(input.skip(at + 1)).len() > 0
}

proof fn lemma_split_at_delimiter(
    input: Seq<char>,
    delimiter: char,
    country_codes: Seq<Seq<char>>,
)
    ensures
        match split_at_delimiter(input, delimiter, country_codes) {
            Some((prefix, rest)) => exists|start: int, at: int| #[trigger]
                is_split(input, delimiter, country_codes, start, at) && prefix == trimmed(
                    input.subrange(start, at),
                ) && rest == trimmed(input.skip(at + 1)),
            None => forall|start: int, at: int| !(#[trigger] is_split(
                input,
                delimiter,
                country_codes,
                start,
                at,
            )),
        },
{
    let first = first_alphanumeric(input, 0);
    law_first_alphanumeric_is_the_first(input, 0);
    law_position_is_the_first(input, delimiter, first);
    if let Some(at) = position_of(input, delimiter, first) {
        assert(input.subrange(at + 1, input.len() as int) =~= input.skip(at + 1));
    }
    if split_at_delimiter(input, delimiter, country_codes) is Some {
        let at = position_of(input, delimiter, first)->0;
        assert(is_split(input, delimiter, country_codes, first, at));
    } else {
        assert forall|start: int, at: int| !(#[trigger] is_split(
            input,
            delimiter,
            country_codes,
            start,
            at,
        )) by {
            if is_split(input, delimiter, country_codes, start, at) {
                if first < start {
                    assert(!alphanumeric(input[first]));
                }
                if start < first {
                    assert(!alphanumeric(input[start]));
                }
                let found = position_of(input, delimiter, first);
                if found is None {
                    assert(input[at] != delimiter);
                } else if found->0 < at {
                    assert(input[found->0] != delimiter);
                } else if at < found->0 {
                    assert(input[at] != delimiter);
                }
            }
        }
    }
}

/// A name is parted at the first of the delimiters, in their order, at which it is split, into the
/// trimmed country code and the trimmed rest; it is not parted exactly if no delimiter splits it.
pub proof fn law_first_delimiter_that_splits_parts(
    input: Seq<char>,
    delimiters: Seq<char>,
    country_codes: Seq<Seq<char>>,
)
    ensures
        match first_split(input, delimiters, country_codes) {
            Some((prefix, rest)) => exists|d: int, start: int, at: int|
                0 <= d < delimiters.len() && #[trigger] is_split(
                    input,
                    delimiters[d],
                    country_codes,
                    start,
                    at,
                ) && prefix == trimmed(input.subrange(start, at)) && rest == trimmed(
                    input.skip(at + 1),
                ) && forall|k: int, s: int, t: int|
                    0 <= k < d ==> !(#[trigger] is_split(
                        input,
                        delimiters[k],
                        country_codes,
                        s,
                        t,
                    )),
            None => forall|k: int, s: int, t: int|
                0 <= k < delimiters.len() ==> !(#[trigger] is_split(
                    input,
                    delimiters[k],
                    country_codes,
                    s,
                    t,
                )),
        },
    decreases delimiters.len(),
{
    if delimiters.len() > 0 {
        lemma_split_at_delimiter(input, delimiters[0], country_codes);
        if split_at_delimiter(input, delimiters[0], country_codes) is None {
            let rest = delimiters.skip(1);
            law_first_delimiter_that_splits_parts(input, rest, country_codes);
            assert forall|k: int| 0 <= k < rest.len() implies rest[k] == delimiters[k + 1] by {}
            if first_split(input, rest, country_codes) is Some {
                let (prefix, tail) = first_split(input, rest, country_codes)->0;
                let (d, start, at) = choose|d: int, start: int, at: int|
                    0 <= d < rest.len() && #[trigger] is_split(
                        input,
                        rest[d],
                        country_codes,
                        start,
                        at,
                    ) && prefix == trimmed(input.subrange(start, at)) && tail == trimmed(
                        input.skip(at + 1),
                    ) && forall|k: int, s: int, t: int|
                        0 <= k < d ==> !(#[trigger] is_split(
                            input,
                            rest[k],
                            country_codes,
                            s,
                            t,
                        ));
                assert(is_split(input, delimiters[d + 1], country_codes, start, at));
                assert forall|k: int, s: int, t: int| 0 <= k < d + 1 implies !(
                #[trigger] is_split(input, delimiters[k], country_codes, s, t)) by {
                    if k > 0 {
                        assert(!is_split(input, rest[k - 1], country_codes, s, t));
                    }
                }
            } else {
                assert forall|k: int, s: int, t: int| 0 <= k < delimiters.len() implies !(
                #[trigger] is_split(input, delimiters[k], country_codes, s, t)) by {
                    if k > 0 {
                        assert(!is_split(input, rest[k - 1], country_codes, s, t));
                    }
                }
            }
        } else {
            let (prefix, tail) = split_at_delimiter(input, delimiters[0], country_codes)->0;
            let (start, at) = choose|start: int, at: int| #[trigger]
                is_split(input, delimiters[0], country_codes, start, at) && prefix == trimmed(
                    input.subrange(start, at),
                ) && tail == trimmed(input.skip(at + 1));
            assert(is_split(input, delimiters[0], country_codes, start, at));
        }
    }
}

/// A name is left as it is if country codes are ignored or it is not split; otherwise its parts
/// are those of the split.
pub proof fn law_parts_of_a_name(name: Seq<char>, config: SpecSmartMatch)
    ensures
        config.name_prefix is Ignore ==> parted_name(name, config) == (name, None::<Seq<char>>),
        !(config.name_prefix is Ignore) ==> match first_split(
            name,
            config.name_prefix_separator,
            config.country_codes,
        ) {
            Some((code, rest)) => parted_name(name, config) == (rest, Some(code)),
            None => parted_name(name, config) == (name, None::<Seq<char>>),
        },
{
}

/// What the regular expression matches is cut out, with nothing in its place.
pub proof fn law_matches_are_cut_out(pattern: Seq<char>, text: Seq<char>)
    ensures
        removed(pattern, text) == regex_replaced(pattern, text, Seq::empty()),
{
    reveal_strlit("");
    assert(""@ =~= Seq::<char>::empty());
}

/// White space around a name makes no difference to how it is normalized.
pub proof fn law_white_space_around_a_name_does_not_count(
    before: Seq<char>,
    name: Seq<char>,
    behind: Seq<char>,
    config: SpecSmartMatch,
)
    requires
        forall|k: int| 0 <= k < before.len() ==> whitespace(#[trigger] before[k]),
        forall|k: int| 0 <= k < behind.len() ==> whitespace(#[trigger] behind[k]),
        name.len() > 0 ==> !whitespace(name[0]) && !whitespace(name.last()),
    ensures
        normalized_name(before + name + behind, config) == normalized_name(name, config),
{
    law_trim_cuts_all_white_space(before, name, behind);
    law_trim_cuts_all_white_space(Seq::empty(), name, Seq::empty());
    assert(Seq::<char>::empty() + name + Seq::<char>::empty() =~= name);
}

proof fn lemma_plain_is_ascii(text: Seq<char>)
    requires
        forall|k: int| 0 <= k < text.len() ==> (#[trigger] text[k]) <= '~',
    ensures
        is_ascii_chars(text),
{
    assert forall|k: int| 0 <= k < text.len() implies '\0' <= (#[trigger] text[k]) <= '\x7f' by {
        lemma_char_is_not_negative(text[k]);
    }
}

proof fn lemma_char_is_not_negative(c: char)
    ensures
        '\0' <= c,
{
}

/// Names in ASCII that differ in the case of letters only are normalized alike.
pub proof fn law_case_of_names_does_not_count(
    name: Seq<char>,
    other: Seq<char>,
    config: SpecSmartMatch,
)
    requires
        name.len() == other.len(),
        forall|k: int|
            0 <= k < name.len() ==> (#[trigger] name[k]) <= '~' && other[k] <= '~' && ascii_lower(
                name[k],
            ) == ascii_lower(other[k]),
        name.len() > 0 ==> !whitespace(name[0]) && !whitespace(name.last()) && !whitespace(
            other[0],
        ) && !whitespace(other.last()),
    ensures
        normalized_name(name, config) == normalized_name(other, config),
{
    law_trim_cuts_all_white_space(Seq::empty(), name, Seq::empty());
    law_trim_cuts_all_white_space(Seq::empty(), other, Seq::empty());
    assert(Seq::<char>::empty() + name + Seq::<char>::empty() =~= name);
    assert(Seq::<char>::empty() + other + Seq::<char>::empty() =~= other);
    assert forall|k: int| 0 <= k < other.len() implies (#[trigger] other[k]) <= '~' by {
        assert(name[k] <= '~');
    }
    lemma_plain_is_ascii(name);
    lemma_plain_is_ascii(other);
    assert(lowered(name) =~= lowered(other));
}

/// A name in plain ASCII, out of which the regular expression cuts nothing, in which no stripped
/// term stands and from which no country code is parted, is lowered and nothing else.
pub proof fn law_plain_name_is_only_lowered(name: Seq<char>, config: SpecSmartMatch)
    requires
        forall|k: int| 0 <= k < name.len() ==> (#[trigger] name[k]) <= '~',
        name.len() > 0 ==> !whitespace(name[0]) && !whitespace(name.last()),
        config.name_prefix is Ignore || first_split(
            name.map_values(|c: char| ascii_lower(c)),
            config.name_prefix_separator,
            config.country_codes,
        ) is None,
        removed(
            config.normalize_regex,
            name.map_values(|c: char| ascii_lower(c)),
        ) == name.map_values(|c: char| ascii_lower(c)),
        no_term_in(name.map_values(|c: char| ascii_lower(c)), config.strip),
    ensures
        normalized_name(name, config).len() == name.len(),
        forall|k: int|
            0 <= k < name.len() ==> #[trigger] normalized_name(name, config)[k] == ascii_lower(
                name[k],
            ),
{
    law_trim_cuts_all_white_space(Seq::empty(), name, Seq::empty());
    assert(Seq::<char>::empty() + name + Seq::<char>::empty() =~= name);
    lemma_plain_is_ascii(name);
    let low = name.map_values(|c: char| ascii_lower(c));
    assert(lowered(in_ascii(name)) == low);
    law_text_without_terms_stays(low, config.strip);
}

/// A name from which no country code is parted is trimmed, transliterated and lowered; then the
/// regular expression is cut out of it, and then the terms are stripped.
pub proof fn law_name_is_cleaned_before_terms_are_stripped(name: Seq<char>, config: SpecSmartMatch)
    requires
        config.name_prefix is Ignore || first_split(
            lowered(in_ascii(trimmed(name))),
            config.name_prefix_separator,
            config.country_codes,
        ) is None,
    ensures
        normalized_name(name, config) == without_terms(
            removed(config.normalize_regex, lowered(in_ascii(trimmed(name)))),
            config.strip,
        ),
{
}

/// A name that is split keeps its parts: what is normalized is the rest, and the country code is
/// joined to it.
pub proof fn law_split_name_keeps_its_parts(
    name: Seq<char>,
    code: Seq<char>,
    rest: Seq<char>,
    config: SpecSmartMatch,
)
    requires
        first_split(
            lowered(in_ascii(trimmed(name))),
            config.name_prefix_separator,
            config.country_codes,
        ) == Some((code, rest)),
    ensures
        match config.name_prefix {
            SpecNamePrefix::Ignore => true,
            SpecNamePrefix::Suffix(separator) => normalized_name(name, config) == without_terms(
                removed(config.normalize_regex, rest),
                config.strip,
            ) + separator + code,
            SpecNamePrefix::Prefix(separator) => normalized_name(name, config) == code + separator
                + without_terms(removed(config.normalize_regex, rest), config.strip),
        },
{
}

} // verus!
