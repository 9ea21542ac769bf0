//! Matching of channels by name.
use crate::cache::{first_wanted, EpgIdCache, SpecCache};
use crate::model::{view_option, views, TVGuide};
use crate::normalize::normalized_name;
use crate::similarity::{name_similarity, similarity};
use crate::tag::XmlTag;
use vstd::prelude::*;

verus! {

/// A name and how much it resembles another one, in percent.
pub struct ScoredName {
    pub name: String,
    pub score: u16,
}

/// A [`ScoredName`] as a mathematical value.
pub struct SpecScored {
    pub name: Seq<char>,
    pub score: int,
}

impl View for ScoredName {
    type V = SpecScored;

    open spec fn view(&self) -> SpecScored {
        SpecScored { name: self.name@, score: self.score as int }
    }
}

/// The first name whose score reaches the threshold.
pub open spec fn first_reaching(scored: Seq<SpecScored>, threshold: int) -> Option<Seq<char>>
    decreases scored.len(),
{
    if scored.len() == 0 {
        None
    } else if scored[0].score >= threshold {
        Some(scored[0].name)
    } else {
        first_reaching(scored.skip(1), threshold)
    }
}

/// The position of the highest score, the first one among equals.
pub open spec fn position_of_best(scored: Seq<SpecScored>) -> int
    decreases scored.len(),
{
    if scored.len() <= 1 {
        0
    } else {
        let before = position_of_best(scored.drop_last());
        if scored[before].score >= scored.last().score {
            before
        } else {
            scored.len() - 1
        }
    }
}

/// The name that is chosen among candidates: the first one that is good enough for no better one
/// to be looked for; otherwise the best one, if it is good enough to match.
pub open spec fn chosen_name(
    scored: Seq<SpecScored>,
    match_threshold: int,
    best_match_threshold: int,
) -> Option<Seq<char>> {
    match first_reaching(scored, best_match_threshold) {
        Some(name) => Some(name),
        None => if scored.len() > 0 && scored[position_of_best(scored)].score >= match_threshold {
            Some(scored[position_of_best(scored)].name)
        } else {
            None
        },
    }
}

/// The candidates, each scored by how much it resembles `name`.
pub open spec fn scored_against(candidates: Seq<Seq<char>>, name: Seq<char>) -> Seq<SpecScored> {
    Seq::new(
        candidates.len(),
        |i: int| SpecScored { name: candidates[i], score: similarity(candidates[i], name) },
    )
}

/// The names that sound like one of `names`, in their order, each scored against the one that it
/// sounds like.
pub open spec fn scored_candidates(cache: SpecCache, names: Seq<Seq<char>>) -> Seq<SpecScored>
    decreases names.len(),
{
    if names.len() == 0 {
        Seq::empty()
    } else {
        scored_candidates(cache, names.drop_last()) + scored_against(
            cache.sounding_like(names.last()),
            names.last(),
        )
    }
}

/// The name that is chosen for the normalized names of a channel.
pub open spec fn fuzzy_match(cache: SpecCache, names: Seq<Seq<char>>) -> Option<Seq<char>> {
    chosen_name(
        scored_candidates(cache, names),
        cache.smart_match_config.match_threshold as int,
        cache.smart_match_config.best_match_threshold as int,
    )
}

/// The wanted name that a channel with these normalized names is matched to.
pub open spec fn matched_key(
    cache: SpecCache,
    names: Seq<Seq<char>>,
    fuzzy_matching: bool,
) -> Option<Seq<char>> {
    match first_wanted(cache.normalized, names) {
        Some(key) => Some(key),
        None => if fuzzy_matching {
            match fuzzy_match(cache, names) {
                Some(key) => if cache.normalized.contains_key(key) {
                    Some(key)
                } else {
                    None
                },
                None => None,
            }
        } else {
            None
        },
    }
}

/// Chooses a name among scored candidates.
pub fn select_fuzzy_match(
    scored: &Vec<ScoredName>,
    match_threshold: u16,
    best_match_threshold: u16,
) -> (found: Option<String>)
    ensures
        view_option(found) == chosen_name(
            views(scored@),
            match_threshold as int,
            best_match_threshold as int,
        ),
{
    let ghost all = views(scored@);
    assert(all.skip(0) =~= all);
    for i in 0..scored.len()
        invariant
            all == views(scored@),
            first_reaching(all, best_match_threshold as int) == first_reaching(
                all.skip(i as int),
                best_match_threshold as int,
            ),
    {
        let ghost rest = all.skip(i as int);
        assert(rest[0] == scored@[i as int]@);
        assert(rest.skip(1) =~= all.skip(i + 1));
        if scored[i].score >= best_match_threshold {
            return Some(scored[i].name.clone());
        }
    }
    assert(first_reaching(all, best_match_threshold as int) is None);
    if scored.len() == 0 {
        return None;
    }
    let mut best: usize = 0;
    for i in 1..scored.len()
        invariant
            all == views(scored@),
            best < i <= scored@.len(),
            best == position_of_best(all.take(i as int)),
    {
        assert(all.take(i + 1).drop_last() =~= all.take(i as int));
        assert(all.take(i + 1)[best as int] == scored@[best as int]@);
        assert(all.take(i + 1).last() == scored@[i as int]@);
        if scored[i].score > scored[best].score {
            best = i;
        }
    }
    assert(all.take(all.len() as int) =~= all);
    assert(all[best as int] == scored@[best as int]@);
    if scored[best].score >= match_threshold {
        Some(scored[best].name.clone())
    } else {
        None
    }
}

impl TVGuide {
    /// The names that sound like one of the normalized names of a channel, with their scores.
    fn score_candidates(id_cache: &EpgIdCache, names: &Vec<String>) -> (scored: Vec<ScoredName>)
        ensures
            views(scored@) == scored_candidates(id_cache@, views(names@)),
    {
        let mut scored: Vec<ScoredName> = Vec::new();
        let ghost all = views(names@);
        for i in 0..names.len()
            invariant
                all == views(names@),
                views(scored@) == scored_candidates(id_cache@, all.take(i as int)),
        {
            let ghost before = views(scored@);
            let ghost group = scored_against(
                id_cache@.sounding_like(all[i as int]),
                all[i as int],
            );
            assert(all.take(i + 1).drop_last() =~= all.take(i as int));
            assert(all.take(i + 1).last() == all[i as int]);
            assert(before + group.take(0) =~= before);
            match id_cache.candidates(names[i].as_str()) {
                Some(candidates) => {
                    for k in 0..candidates.len()
                        invariant
                            i < names@.len(),
                            all == views(names@),
                            views(candidates@) == id_cache@.sounding_like(all[i as int]),
                            group == scored_against(
                                id_cache@.sounding_like(all[i as int]),
                                all[i as int],
                            ),
                            views(scored@) == before + group.take(k as int),
                    {
                        let ghost earlier = scored@;
                        assert(candidates@[k as int]@ == views(candidates@)[k as int]);
                        let score = name_similarity(candidates[k].as_str(), names[i].as_str());
                        scored.push(ScoredName { name: candidates[k].clone(), score });
                        assert(views(scored@) =~= views(earlier).push(group[k as int]));
                        assert(views(scored@) =~= before + group.take(k + 1));
                    }
                    assert(group.take(group.len() as int) =~= group);
                },
                None => {
                    assert(group =~= group.take(0));
                },
            }
        }
        assert(all.take(all.len() as int) =~= all);
        scored
    }

    /// Finds the wanted name that sounds like a normalized name of the channel and resembles it
    /// most, if it resembles it enough.
    pub fn find_best_fuzzy_match(id_cache: &EpgIdCache, tag: &XmlTag) -> (found: (
        bool,
        Option<String>,
    ))
        ensures
            view_option(found.1) == fuzzy_match(id_cache@, tag@.ids()),
            found.0 == found.1 is Some,
    {
        let match_threshold = id_cache.smart_match_config.match_threshold;
        let best_match_threshold = id_cache.smart_match_config.best_match_threshold;
        match &tag.normalized_epg_ids {
            None => (false, None),
            Some(names) => {
                let scored = Self::score_candidates(id_cache, names);
                match select_fuzzy_match(&scored, match_threshold, best_match_threshold) {
                    Some(name) => (true, Some(name)),
                    None => (false, None),
                }
            },
        }
    }

    /// Matches a channel by its normalized names, and notes its guide id if there is a match.
    pub fn try_fuzzy_matching(
        id_cache: &mut EpgIdCache,
        epg_id: &str,
        tag: &XmlTag,
        fuzzy_matching: bool,
    ) -> (matched: bool)
        ensures
            match matched_key(old(id_cache)@, tag@.ids(), fuzzy_matching) {
                Some(key) => matched && final(id_cache)@ == old(id_cache)@.matching(key, epg_id@),
                None => !matched && final(id_cache)@ == old(id_cache)@,
            },
    {
        if let Some(names) = &tag.normalized_epg_ids {
            if id_cache.match_with_normalized(epg_id, names) {
                return true;
            }
        }
        if fuzzy_matching {
            let (found, name) = Self::find_best_fuzzy_match(id_cache, tag);
            if found {
                if let Some(key) = name {
                    assert(id_cache@.normalized.contains_key(key@)
                        == id_cache.normalized@.contains_key(key@));
                    if id_cache.normalized.contains_key(key.as_str()) {
                        id_cache.record_match(key.as_str(), epg_id);
                        return true;
                    }
                }
            }
        }
        false
    }
}

/// A chosen name is one of the candidates, and its score reaches one of the thresholds. If no
/// score reaches the upper one, then no candidate has a higher score and no earlier one the same.
pub proof fn law_chosen_name_is_good_enough(
    scored: Seq<SpecScored>,
    match_threshold: int,
    best_match_threshold: int,
)
    ensures
        chosen_name(scored, match_threshold, best_match_threshold) is Some ==> exists|i: int|
            0 <= i < scored.len() && chosen_name(scored, match_threshold, best_match_threshold)
                == Some((#[trigger] scored[i]).name) && if scored[i].score >= best_match_threshold {
                forall|k: int| 0 <= k < i ==> (#[trigger] scored[k]).score < best_match_threshold
            } else {
                scored[i].score >= match_threshold && forall|k: int|
                    0 <= k < scored.len() ==> (#[trigger] scored[k]).score <= scored[i].score && (k
                        < i ==> scored[k].score < scored[i].score)
            },
{
    lemma_first_reaching(scored, best_match_threshold);
    if first_reaching(scored, best_match_threshold) is None && scored.len() > 0 {
        lemma_position_of_best(scored);
        assert(scored[position_of_best(scored)].score < best_match_threshold);
    }
}

/// No name is chosen exactly if every candidate stays below both thresholds.
pub proof fn law_no_name_is_chosen_below_the_thresholds(
    scored: Seq<SpecScored>,
    match_threshold: int,
    best_match_threshold: int,
)
    ensures
        chosen_name(scored, match_threshold, best_match_threshold) is None <==> forall|i: int|
            0 <= i < scored.len() ==> (#[trigger] scored[i]).score < match_threshold
                && scored[i].score < best_match_threshold,
{
    lemma_first_reaching(scored, best_match_threshold);
    if scored.len() > 0 {
        lemma_position_of_best(scored);
        let best = scored[position_of_best(scored)];
        assert(best.score < match_threshold ==> forall|i: int|
            0 <= i < scored.len() ==> (#[trigger] scored[i]).score < match_threshold);
    }
}

proof fn lemma_first_reaching(scored: Seq<SpecScored>, threshold: int)
    ensures
        match first_reaching(scored, threshold) {
            Some(name) => exists|i: int|
                0 <= i < scored.len() && name == (#[trigger] scored[i]).name && scored[i].score
                    >= threshold && forall|k: int|
                    0 <= k < i ==> (#[trigger] scored[k]).score < threshold,
            None => forall|k: int|
                0 <= k < scored.len() ==> (#[trigger] scored[k]).score < threshold,
        },
    decreases scored.len(),
{
    if scored.len() > 0 && scored[0].score < threshold {
        let rest = scored.skip(1);
        lemma_first_reaching(rest, threshold);
        if first_reaching(rest, threshold) is Some {
            let i = choose|i: int|
                0 <= i < rest.len() && first_reaching(rest, threshold) == Some(
                    (#[trigger] rest[i]).name,
                ) && rest[i].score >= threshold && forall|k: int|
                    0 <= k < i ==> (#[trigger] rest[k]).score < threshold;
            assert(scored[i + 1] == rest[i]);
            assert forall|k: int| 0 <= k < i + 1 implies (#[trigger] scored[k]).score
                < threshold by {
                if k > 0 {
                    assert(scored[k] == rest[k - 1]);
                }
            }
        } else {
            assert forall|k: int| 0 <= k < scored.len() implies (#[trigger] scored[k]).score
                < threshold by {
                if k > 0 {
                    assert(scored[k] == rest[k - 1]);
                }
            }
        }
    }
}

proof fn lemma_position_of_best(scored: Seq<SpecScored>)
    requires
        scored.len() > 0,
    ensures
        0 <= position_of_best(scored) < scored.len(),
        forall|k: int|
            0 <= k < scored.len() ==> (#[trigger] scored[k]).score
                <= scored[position_of_best(scored)].score,
        forall|k: int|
            0 <= k < position_of_best(scored) ==> (#[trigger] scored[k]).score
                < scored[position_of_best(scored)].score,
    decreases scored.len(),
{
    if scored.len() > 1 {
        let shorter = scored.drop_last();
        lemma_position_of_best(shorter);
        assert forall|k: int| 0 <= k < shorter.len() implies scored[k] == shorter[k] by {}
    }
}

proof fn lemma_wanted_is_found(
    wanted: Map<Seq<char>, Option<Seq<char>>>,
    names: Seq<Seq<char>>,
    name: Seq<char>,
)
    requires
        names.contains(name),
        wanted.contains_key(name),
    ensures
        first_wanted(wanted, names) is Some,
    decreases names.len(),
{
    let i = names.index_of(name);
    if !wanted.contains_key(names[0]) {
        assert(names.skip(1)[i - 1] == name);
        lemma_wanted_is_found(wanted, names.skip(1), name);
    }
}

/// A channel that has a wanted name is matched, whether or not names that only sound alike match.
pub proof fn law_wanted_name_is_matched(
    cache: SpecCache,
    name: Seq<char>,
    epg_id: Option<Seq<char>>,
    names: Seq<Seq<char>>,
    fuzzy_matching: bool,
)
    requires
        names.contains(normalized_name(name, cache.smart_match_config)),
    ensures
        matched_key(cache.wanting_name(name, epg_id), names, fuzzy_matching) is Some,
{
    let key = normalized_name(name, cache.smart_match_config);
    lemma_wanted_is_found(cache.wanting_name(name, epg_id).normalized, names, key);
}

proof fn lemma_first_wanted_is_wanted(
    wanted: Map<Seq<char>, Option<Seq<char>>>,
    names: Seq<Seq<char>>,
)
    ensures
        first_wanted(wanted, names) is Some ==> wanted.contains_key(
            first_wanted(wanted, names)->0,
        ),
    decreases names.len(),
{
    if names.len() > 0 && !wanted.contains_key(names[0]) {
        lemma_first_wanted_is_wanted(wanted, names.skip(1));
    }
}

/// A channel is only ever matched to a name that is wanted.
pub proof fn law_matched_name_is_wanted(
    cache: SpecCache,
    names: Seq<Seq<char>>,
    fuzzy_matching: bool,
)
    ensures
        matched_key(cache, names, fuzzy_matching) is Some ==> cache.normalized.contains_key(
            matched_key(cache, names, fuzzy_matching)->0,
        ),
{
    lemma_first_wanted_is_wanted(cache.normalized, names);
}

} // verus!
