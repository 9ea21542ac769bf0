//! What holds of the operations on texts.
use crate::external::{alphanumeric, whitespace};
use crate::text::{
    after_last_visible, first_alphanumeric, first_visible, position_of, trimmed, without_term,
};
use vstd::prelude::*;

verus! {

/// Whether the characters of `term` stand at `at`.
pub open spec fn stands_at(text: Seq<char>, term: Seq<char>, at: int) -> bool {
    0 <= at && at + term.len() <= text.len() && text.subrange(at, at + term.len()) == term
}

proof fn lemma_first_visible_cuts(text: Seq<char>, from: int)
    requires
        0 <= from <= text.len(),
    ensures
        from <= first_visible(text, from) <= text.len(),
        forall|k: int| from <= k < first_visible(text, from) ==> whitespace(#[trigger] text[k]),
        first_visible(text, from) < text.len() ==> !whitespace(text[first_visible(text, from)]),
    decreases text.len() - from,
{
    if from < text.len() && whitespace(text[from]) {
        lemma_first_visible_cuts(text, from + 1);
    }
}

proof fn lemma_last_visible_cuts(text: Seq<char>, from: int, to: int)
    requires
        0 <= from <= to <= text.len(),
    ensures
        from <= after_last_visible(text, from, to) <= to,
        forall|k: int|
            after_last_visible(text, from, to) <= k < to ==> whitespace(#[trigger] text[k]),
        from < after_last_visible(text, from, to) ==> !whitespace(
            text[after_last_visible(text, from, to) - 1],
        ),
    decreases to - from,
{
    if from < to && whitespace(text[to - 1]) {
        lemma_last_visible_cuts(text, from, to - 1);
    }
}

/// All that trimming cuts off is white space: a text is white space, the trimmed text, and white
/// space.
pub proof fn law_trim_cuts_only_white_space(text: Seq<char>) -> (parts: (Seq<char>, Seq<char>))
    ensures
        text == parts.0 + trimmed(text) + parts.1,
        forall|k: int| 0 <= k < parts.0.len() ==> whitespace(#[trigger] parts.0[k]),
        forall|k: int| 0 <= k < parts.1.len() ==> whitespace(#[trigger] parts.1[k]),
{
    let from = first_visible(text, 0);
    lemma_first_visible_cuts(text, 0);
    lemma_last_visible_cuts(text, from, text.len() as int);
    let to = after_last_visible(text, from, text.len() as int);
    let parts = (text.take(from), text.skip(to));
    assert(text =~= parts.0 + trimmed(text) + parts.1);
    parts
}

/// A text between white space, which neither begins nor ends with any, is what is left of it when
/// it is trimmed.
pub proof fn law_trim_cuts_all_white_space(
    before: Seq<char>,
    text: Seq<char>,
    behind: Seq<char>,
)
    requires
        forall|k: int| 0 <= k < before.len() ==> whitespace(#[trigger] before[k]),
        forall|k: int| 0 <= k < behind.len() ==> whitespace(#[trigger] behind[k]),
        text.len() > 0 ==> !whitespace(text[0]) && !whitespace(text.last()),
    ensures
        trimmed(before + text + behind) == text,
{
    let all = before + text + behind;
    let from = first_visible(all, 0);
    lemma_first_visible_cuts(all, 0);
    lemma_last_visible_cuts(all, from, all.len() as int);
    let to = after_last_visible(all, from, all.len() as int);
    assert forall|k: int| 0 <= k < before.len() implies whitespace(#[trigger] all[k]) by {
        assert(all[k] == before[k]);
    }
    assert forall|k: int| before.len() + text.len() <= k < all.len() implies whitespace(
        #[trigger] all[k],
    ) by {
        assert(all[k] == behind[k - before.len() - text.len()]);
    }
    if text.len() > 0 {
        assert(all[before.len() as int] == text[0]);
        assert(all[before.len() + text.len() - 1] == text.last());
        assert(from == before.len());
        assert(to == before.len() + text.len());
    } else {
        if from < all.len() {
            assert(whitespace(all[from]));
        }
        assert(from == all.len());
    }
    assert(trimmed(all) =~= text);
}

/// A character is found at its first place from a position on, and not at all exactly if it does
/// not stand there.
pub proof fn law_position_is_the_first(text: Seq<char>, wanted: char, from: int)
    requires
        0 <= from <= text.len(),
    ensures
        match position_of(text, wanted, from) {
            Some(at) => {
                &&& from <= at < text.len()
                &&& text[at] == wanted
                &&& forall|k: int| from <= k < at ==> (#[trigger] text[k]) != wanted
            },
            None => forall|k: int| from <= k < text.len() ==> (#[trigger] text[k]) != wanted,
        },
    decreases text.len() - from,
{
    if from < text.len() && text[from] != wanted {
        law_position_is_the_first(text, wanted, from + 1);
    }
}

/// The first letter or number is one, unless there is none, and nothing before it is.
pub proof fn law_first_alphanumeric_is_the_first(text: Seq<char>, from: int)
    requires
        0 <= from <= text.len(),
    ensures
        from <= first_alphanumeric(text, from) <= text.len(),
        forall|k: int|
            from <= k < first_alphanumeric(text, from) ==> !alphanumeric(#[trigger] text[k]),
        first_alphanumeric(text, from) < text.len() ==> alphanumeric(
            text[first_alphanumeric(text, from)],
        ),
    decreases text.len() - from,
{
    if from < text.len() && !alphanumeric(text[from]) {
        law_first_alphanumeric_is_the_first(text, from + 1);
    }
}

/// A text in which a term does not stand stays whole when the term is cut out of it.
pub proof fn law_text_without_term_stays(text: Seq<char>, term: Seq<char>)
    requires
        forall|at: int| !(#[trigger] stands_at(text, term, at)) || term.len() == 0,
    ensures
        without_term(text, term) == text,
    decreases text.len(),
{
    if term.len() > 0 && text.len() >= term.len() {
        assert(!stands_at(text, term, 0));
        assert(text.take(term.len() as int) =~= text.subrange(0, term.len() as int));
        let rest = text.skip(1);
        assert forall|at: int| !(#[trigger] stands_at(rest, term, at)) || term.len() == 0 by {
            if stands_at(rest, term, at) {
                assert(rest.subrange(at, at + term.len()) =~= text.subrange(
                    at + 1,
                    at + 1 + term.len(),
                ));
                assert(stands_at(text, term, at + 1));
            }
        }
        law_text_without_term_stays(rest, term);
        assert(text =~= seq![text[0]] + rest);
    }
}

/// Where a term stands for the first time, it is cut out: what is before it stays, and the term is
/// cut out of what is behind it.
pub proof fn law_first_term_is_cut(before: Seq<char>, term: Seq<char>, behind: Seq<char>)
    requires
        term.len() > 0,
        forall|at: int|
            0 <= at < before.len() ==> !(#[trigger] stands_at(before + term + behind, term, at)),
    ensures
        without_term(before + term + behind, term) == before + without_term(behind, term),
    decreases before.len(),
{
    let text = before + term + behind;
    if before.len() == 0 {
        assert(text.take(term.len() as int) =~= term);
        assert(text.skip(term.len() as int) =~= behind);
        assert(before + without_term(behind, term) =~= without_term(behind, term));
    } else {
        assert(!stands_at(text, term, 0));
        assert(text.take(term.len() as int) =~= text.subrange(0, term.len() as int));
        let shorter = before.skip(1);
        let rest = shorter + term + behind;
        assert(text.skip(1) =~= rest);
        assert forall|at: int| 0 <= at < shorter.len() implies !(#[trigger] stands_at(
            rest,
            term,
            at,
        )) by {
            if stands_at(rest, term, at) {
                assert(rest.subrange(at, at + term.len()) =~= text.subrange(
                    at + 1,
                    at + 1 + term.len(),
                ));
                assert(stands_at(text, term, at + 1));
            }
        }
        law_first_term_is_cut(shorter, term, behind);
        assert(seq![text[0]] + (shorter + without_term(behind, term)) =~= before + without_term(
            behind,
            term,
        ));
    }
}

} // verus!
