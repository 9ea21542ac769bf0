//! What holds of every match by name.
use crate::cache::{first_wanted, phonetic_code, SpecCache};
use crate::external::{in_ascii, metaphone_code};
use crate::fuzzy::{
    chosen_name, fuzzy_match, law_chosen_name_is_good_enough,
    law_no_name_is_chosen_below_the_thresholds, matched_key, scored_against, scored_candidates,
    SpecScored,
};
use crate::guide::guide_of_tags;
use crate::guide_laws::law_cache_only_grows;
use crate::normalize::normalized_name;
use crate::similarity::similarity;
use crate::tag::SpecTag;
use vstd::prelude::*;
use vstd::utf8::is_ascii_chars;

verus! {

/// Whether a name sounds like the `i`-th of `names` and has this score against it.
pub open spec fn is_candidate(
    cache: SpecCache,
    names: Seq<Seq<char>>,
    i: int,
    scored: SpecScored,
) -> bool {
    &&& 0 <= i < names.len()
    &&& cache.sounding_like(names[i]).contains(scored.name)
    &&& scored.score == similarity(scored.name, names[i])
}

proof fn lemma_scored_is_candidate(cache: SpecCache, names: Seq<Seq<char>>, k: int) -> (i: int)
    requires
        0 <= k < scored_candidates(cache, names).len(),
    ensures
        is_candidate(cache, names, i, scored_candidates(cache, names)[k]),
    decreases names.len(),
{
    let earlier = scored_candidates(cache, names.drop_last());
    if k < earlier.len() {
        let i = lemma_scored_is_candidate(cache, names.drop_last(), k);
        assert(names[i] == names.drop_last()[i]);
        i
    } else {
        let group = cache.sounding_like(names.last());
        assert(scored_against(group, names.last())[k - earlier.len()].name == group[k
            - earlier.len()]);
        names.len() - 1
    }
}

proof fn lemma_candidate_is_scored(
    cache: SpecCache,
    names: Seq<Seq<char>>,
    i: int,
    scored: SpecScored,
) -> (k: int)
    requires
        is_candidate(cache, names, i, scored),
    ensures
        0 <= k < scored_candidates(cache, names).len(),
        scored_candidates(cache, names)[k] == scored,
    decreases names.len(),
{
    let earlier = scored_candidates(cache, names.drop_last());
    if i < names.len() - 1 {
        assert(names.drop_last()[i] == names[i]);
        lemma_candidate_is_scored(cache, names.drop_last(), i, scored)
    } else {
        let group = cache.sounding_like(names.last());
        let at = group.index_of(scored.name);
        assert(scored_against(group, names.last())[at] == scored);
        earlier.len() + at
    }
}

/// A name that is found for a channel sounds like one of its names, and resembles that one at
/// least as much as one of the thresholds demands.
pub proof fn law_fuzzy_match_is_similar(cache: SpecCache, names: Seq<Seq<char>>) -> (i: int)
    requires
        fuzzy_match(cache, names) is Some,
    ensures
        0 <= i < names.len(),
        cache.sounding_like(names[i]).contains(fuzzy_match(cache, names)->0),
        similarity(fuzzy_match(cache, names)->0, names[i])
            >= cache.smart_match_config.match_threshold || similarity(
            fuzzy_match(cache, names)->0,
            names[i],
        ) >= cache.smart_match_config.best_match_threshold,
{
    let scored = scored_candidates(cache, names);
    let lower = cache.smart_match_config.match_threshold as int;
    let upper = cache.smart_match_config.best_match_threshold as int;
    law_chosen_name_is_good_enough(scored, lower, upper);
    let k = choose|k: int|
        0 <= k < scored.len() && chosen_name(scored, lower, upper) == Some(
            (#[trigger] scored[k]).name,
        ) && (scored[k].score >= upper || scored[k].score >= lower);
    lemma_scored_is_candidate(cache, names, k)
}

/// No name is found for a channel exactly if every name that sounds like one of its names
/// resembles that one less than both thresholds demand.
pub proof fn law_no_fuzzy_match(cache: SpecCache, names: Seq<Seq<char>>)
    ensures
        fuzzy_match(cache, names) is None <==> forall|i: int, candidate: SpecScored| #[trigger]
            is_candidate(cache, names, i, candidate) ==> candidate.score
                < cache.smart_match_config.match_threshold && candidate.score
                < cache.smart_match_config.best_match_threshold,
{
    let scored = scored_candidates(cache, names);
    let lower = cache.smart_match_config.match_threshold as int;
    let upper = cache.smart_match_config.best_match_threshold as int;
    law_no_name_is_chosen_below_the_thresholds(scored, lower, upper);
    if fuzzy_match(cache, names) is None {
        assert forall|i: int, candidate: SpecScored| #[trigger]
            is_candidate(cache, names, i, candidate) implies candidate.score < lower
            && candidate.score < upper by {
            let k = lemma_candidate_is_scored(cache, names, i, candidate);
            assert(scored[k].score < lower && scored[k].score < upper);
        }
    } else {
        let k = choose|k: int|
            0 <= k < scored.len() && !((#[trigger] scored[k]).score < lower && scored[k].score
                < upper);
        let i = lemma_scored_is_candidate(cache, names, k);
        assert(is_candidate(cache, names, i, scored[k]));
    }
}

/// Whether every name that is filed under a phonetic code has that code and is wanted.
pub open spec fn names_are_filed(cache: SpecCache) -> bool {
    forall|code: Seq<char>, i: int|
        cache.phonetics.contains_key(code) && 0 <= i < cache.phonetics[code].len() ==> {
            &&& phonetic_code(#[trigger] cache.phonetics[code][i]) == code
            &&& cache.normalized.contains_key(cache.phonetics[code][i])
        }
}

/// Names are filed in a cache that knows no phonetic codes.
pub proof fn law_names_are_filed_at_first(cache: SpecCache)
    requires
        cache.phonetics == Map::<Seq<char>, Seq<Seq<char>>>::empty(),
    ensures
        names_are_filed(cache),
{
}

/// Names stay filed when a name becomes wanted.
pub proof fn law_wanted_name_is_filed(
    cache: SpecCache,
    name: Seq<char>,
    epg_id: Option<Seq<char>>,
)
    requires
        names_are_filed(cache),
    ensures
        names_are_filed(cache.wanting_name(name, epg_id)),
{
    let wanted = cache.wanting_name(name, epg_id);
    let own = normalized_name(name, cache.smart_match_config);
    assert forall|code: Seq<char>, i: int|
        wanted.phonetics.contains_key(code) && 0 <= i < wanted.phonetics[code].len() implies {
        &&& phonetic_code(#[trigger] wanted.phonetics[code][i]) == code
        &&& wanted.normalized.contains_key(wanted.phonetics[code][i])
    } by {
        let filed = wanted.phonetics[code][i];
        if cache.phonetics.contains_key(code) && i < cache.phonetics[code].len() {
            assert(cache.phonetics[code][i] == filed);
        } else {
            assert(filed == own);
        }
    }
}

/// Names stay filed when a guide is read.
pub proof fn law_guide_keeps_names_filed(
    cache: SpecCache,
    tags: Seq<SpecTag>,
    smart_match: bool,
    fuzzy_matching: bool,
)
    requires
        names_are_filed(cache),
    ensures
        names_are_filed(guide_of_tags(cache, tags, smart_match, fuzzy_matching).cache),
{
    law_cache_only_grows(cache, tags, smart_match, fuzzy_matching);
    let after = guide_of_tags(cache, tags, smart_match, fuzzy_matching).cache;
    assert forall|code: Seq<char>, i: int|
        after.phonetics.contains_key(code) && 0 <= i < after.phonetics[code].len() implies {
        &&& phonetic_code(#[trigger] after.phonetics[code][i]) == code
        &&& after.normalized.contains_key(after.phonetics[code][i])
    } by {
        assert(cache.phonetics[code][i] == after.phonetics[code][i]);
        assert(cache.normalized.dom().contains(cache.phonetics[code][i]));
    }
}

/// Where names are filed, a name that is found for a channel is wanted, so that the channel is
/// matched.
pub proof fn law_fuzzy_match_is_wanted(cache: SpecCache, names: Seq<Seq<char>>)
    requires
        names_are_filed(cache),
        fuzzy_match(cache, names) is Some,
    ensures
        cache.normalized.contains_key(fuzzy_match(cache, names)->0),
        matched_key(cache, names, true) is Some,
{
    let i = law_fuzzy_match_is_similar(cache, names);
    let found = fuzzy_match(cache, names)->0;
    let group = cache.sounding_like(names[i]);
    let code = phonetic_code(names[i]);
    let at = group.index_of(found);
    assert(cache.phonetics[code][at] == found);
}

proof fn lemma_first_wanted(wanted: Map<Seq<char>, Option<Seq<char>>>, names: Seq<Seq<char>>)
    ensures
        match first_wanted(wanted, names) {
            Some(name) => exists|i: int|
                0 <= i < names.len() && name == #[trigger] names[i] && wanted.contains_key(name)
                    && forall|k: int| 0 <= k < i ==> !wanted.contains_key(#[trigger] names[k]),
            None => forall|k: int|
                0 <= k < names.len() ==> !wanted.contains_key(#[trigger] names[k]),
        },
    decreases names.len(),
{
    if names.len() > 0 {
        if wanted.contains_key(names[0]) {
            assert(first_wanted(wanted, names) == Some(names[0]));
        } else {
            let rest = names.skip(1);
            lemma_first_wanted(wanted, rest);
            if first_wanted(wanted, rest) is Some {
                let name = first_wanted(wanted, rest)->0;
                let i = choose|i: int|
                    0 <= i < rest.len() && name == #[trigger] rest[i] && wanted.contains_key(name)
                        && forall|k: int| 0 <= k < i ==> !wanted.contains_key(#[trigger] rest[k]);
                assert(names[i + 1] == name);
                assert forall|k: int| 0 <= k < i + 1 implies !wanted.contains_key(
                    #[trigger] names[k],
                ) by {
                    if k > 0 {
                        assert(names[k] == rest[k - 1]);
                    }
                }
            } else {
                assert forall|k: int| 0 <= k < names.len() implies !wanted.contains_key(
                    #[trigger] names[k],
                ) by {
                    if k > 0 {
                        assert(names[k] == rest[k - 1]);
                    }
                }
            }
        }
    }
}

/// A channel with a name of its own that is wanted is matched to that name, the first one if there
/// are several, whether or not names that only sound alike match. So no name that is not its own is
/// chosen for it, however much it resembles one.
pub proof fn law_own_name_is_matched_first(
    cache: SpecCache,
    names: Seq<Seq<char>>,
    fuzzy_matching: bool,
    i: int,
)
    requires
        0 <= i < names.len(),
        cache.normalized.contains_key(names[i]),
        forall|k: int| 0 <= k < i ==> !cache.normalized.contains_key(#[trigger] names[k]),
    ensures
        matched_key(cache, names, fuzzy_matching) == Some(names[i]),
{
    lemma_first_wanted(cache.normalized, names);
    let name = first_wanted(cache.normalized, names)->0;
    let at = choose|at: int|
        0 <= at < names.len() && name == #[trigger] names[at] && cache.normalized.contains_key(name)
            && forall|k: int| 0 <= k < at ==> !cache.normalized.contains_key(#[trigger] names[k]);
    assert(at == i) by {
        if at < i {
            assert(!cache.normalized.contains_key(names[at]));
        }
        if i < at {
            assert(!cache.normalized.contains_key(names[i]));
        }
    }
}

/// As soon as any name of a channel is wanted, the name that it is matched to is one of its own; a
/// name that is not among them is chosen only if none of them is wanted.
pub proof fn law_other_name_needs_no_own_one(
    cache: SpecCache,
    names: Seq<Seq<char>>,
    fuzzy_matching: bool,
    i: int,
)
    requires
        0 <= i < names.len(),
        cache.normalized.contains_key(names[i]),
    ensures
        matched_key(cache, names, fuzzy_matching) is Some,
        names.contains(matched_key(cache, names, fuzzy_matching)->0),
        cache.normalized.contains_key(matched_key(cache, names, fuzzy_matching)->0),
        matched_key(cache, names, true) == matched_key(cache, names, false),
{
    lemma_first_wanted(cache.normalized, names);
}

/// A channel none of whose names is wanted is matched only if names that sound alike match, and
/// then to the name that is found for it, if that one is wanted.
pub proof fn law_match_without_an_own_name(cache: SpecCache, names: Seq<Seq<char>>)
    requires
        forall|k: int|
            0 <= k < names.len() ==> !cache.normalized.contains_key(#[trigger] names[k]),
    ensures
        matched_key(cache, names, false) is None,
        matched_key(cache, names, true) is Some <==> fuzzy_match(cache, names) is Some
            && cache.normalized.contains_key(fuzzy_match(cache, names)->0),
        matched_key(cache, names, true) is Some ==> matched_key(cache, names, true) == fuzzy_match(
            cache,
            names,
        ),
{
    lemma_first_wanted(cache.normalized, names);
}

/// The candidates for a name are the names that sound like it, in their order, each with its
/// similarity to that name; those for several names follow each other in the order of the names.
pub proof fn law_candidates_in_order(
    cache: SpecCache,
    name: Seq<char>,
    first: Seq<Seq<char>>,
    second: Seq<Seq<char>>,
)
    ensures
        ({
            let scored = scored_candidates(cache, seq![name]);
            let group = cache.sounding_like(name);
            &&& scored.len() == group.len()
            &&& forall|k: int|
                0 <= k < group.len() ==> (#[trigger] scored[k]).name == group[k] && scored[k].score
                    == similarity(group[k], name)
        }),
        scored_candidates(cache, first + second) == scored_candidates(cache, first)
            + scored_candidates(cache, second),
    decreases second.len(),
{
    let one = seq![name];
    assert(one.drop_last() =~= Seq::<Seq<char>>::empty());
    assert(one.last() == name);
    assert(scored_candidates(cache, one.drop_last()) =~= Seq::<SpecScored>::empty());
    assert(scored_candidates(cache, one) =~= scored_against(cache.sounding_like(name), name));
    if second.len() == 0 {
        assert(first + second =~= first);
        assert(scored_candidates(cache, first) + Seq::<SpecScored>::empty() =~= scored_candidates(
            cache,
            first,
        ));
    } else {
        let shorter = second.drop_last();
        law_candidates_in_order(cache, name, first, shorter);
        assert((first + second).drop_last() =~= first + shorter);
        assert((first + second).last() == second.last());
        assert(scored_candidates(cache, first + second) =~= scored_candidates(cache, first)
            + scored_candidates(cache, second));
    }
}

/// A name that is found for a channel resembles one of its names as much as the upper threshold
/// demands, if any candidate does; otherwise no candidate resembles a name of it more.
pub proof fn law_better_match_is_preferred(
    cache: SpecCache,
    names: Seq<Seq<char>>,
    other: SpecScored,
    j: int,
) -> (i: int)
    requires
        fuzzy_match(cache, names) is Some,
        is_candidate(cache, names, j, other),
    ensures
        0 <= i < names.len(),
        cache.sounding_like(names[i]).contains(fuzzy_match(cache, names)->0),
        other.score >= cache.smart_match_config.best_match_threshold ==> similarity(
            fuzzy_match(cache, names)->0,
            names[i],
        ) >= cache.smart_match_config.best_match_threshold,
        other.score < cache.smart_match_config.best_match_threshold ==> similarity(
            fuzzy_match(cache, names)->0,
            names[i],
        ) >= other.score || similarity(fuzzy_match(cache, names)->0, names[i])
            >= cache.smart_match_config.best_match_threshold,
{
    let scored = scored_candidates(cache, names);
    let lower = cache.smart_match_config.match_threshold as int;
    let upper = cache.smart_match_config.best_match_threshold as int;
    law_chosen_name_is_good_enough(scored, lower, upper);
    let k = choose|k: int|
        0 <= k < scored.len() && chosen_name(scored, lower, upper) == Some(
            (#[trigger] scored[k]).name,
        ) && if scored[k].score >= upper {
            forall|n: int| 0 <= n < k ==> (#[trigger] scored[n]).score < upper
        } else {
            scored[k].score >= lower && forall|n: int|
                0 <= n < scored.len() ==> (#[trigger] scored[n]).score <= scored[k].score && (n < k
                    ==> scored[n].score < scored[k].score)
        };
    let at = lemma_candidate_is_scored(cache, names, j, other);
    assert(scored[at] == other);
    lemma_scored_is_candidate(cache, names, k)
}

/// Names with the same phonetic code sound alike. The code of an ASCII name is its own, and that
/// of any other name the code of its transliteration.
pub proof fn law_names_that_sound_alike(cache: SpecCache, a: Seq<char>, b: Seq<char>)
    ensures
        is_ascii_chars(a) ==> phonetic_code(a) == metaphone_code(a),
        !is_ascii_chars(a) ==> phonetic_code(a) == metaphone_code(in_ascii(a)),
        phonetic_code(a) == phonetic_code(b) ==> cache.sounding_like(a) == cache.sounding_like(b),
        cache.sounding_like(a).len() > 0 ==> cache.phonetics.contains_key(phonetic_code(a))
            && cache.sounding_like(a) == cache.phonetics[phonetic_code(a)],
        cache.phonetics.contains_key(phonetic_code(a)) ==> cache.sounding_like(a)
            == cache.phonetics[phonetic_code(a)],
{
}

/// A name that becomes wanted is wanted in its normalized form, with its guide id. It then sounds
/// like every name with its phonetic code, behind those that did before, and is filed once.
/// Nothing else changes.
pub proof fn law_name_becomes_wanted(
    cache: SpecCache,
    name: Seq<char>,
    epg_id: Option<Seq<char>>,
    other: Seq<char>,
)
    ensures
        ({
            let after = cache.wanting_name(name, epg_id);
            let key = normalized_name(name, cache.smart_match_config);
            let known = cache.sounding_like(other);
            &&& after.normalized.contains_key(key) && after.normalized[key] == epg_id
            &&& other != key ==> after.normalized.contains_key(other)
                == cache.normalized.contains_key(other)
            &&& other != key && cache.normalized.contains_key(other) ==> after.normalized[other]
                == cache.normalized[other]
            &&& after.sounding_like(other) == if phonetic_code(other) == phonetic_code(key)
                && !known.contains(key) {
                known.push(key)
            } else {
                known
            }
            &&& after.channel_epg_id == cache.channel_epg_id
            &&& after.processed == cache.processed
            &&& after.smart_match_config == cache.smart_match_config
        }),
{
}

/// A guide id that is found for a wanted name is noted for that name and becomes wanted. Nothing
/// else changes.
pub proof fn law_found_id_is_noted(
    cache: SpecCache,
    key: Seq<char>,
    epg_id: Seq<char>,
    other: Seq<char>,
)
    ensures
        ({
            let after = cache.matching(key, epg_id);
            &&& after.normalized.contains_key(key) && after.normalized[key] == Some(epg_id)
            &&& other != key ==> after.normalized.contains_key(other)
                == cache.normalized.contains_key(other)
            &&& other != key && cache.normalized.contains_key(other) ==> after.normalized[other]
                == cache.normalized[other]
            &&& after.channel_epg_id.contains(other) <==> other == epg_id
                || cache.channel_epg_id.contains(other)
            &&& after.phonetics == cache.phonetics
            &&& after.processed == cache.processed
            &&& after.smart_match_config == cache.smart_match_config
        }),
{
}

} // verus!
