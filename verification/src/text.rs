//! Operations on texts, stated over the sequence of their characters.
use crate::external::{alphanumeric, whitespace};
use vstd::prelude::*;
use vstd::string::*;
use vstd::utf8::{encode_utf8, encode_utf8_decode_utf8};

verus! {

/// Whether two texts hold the same characters.
pub fn same_text(a: &str, b: &str) -> (r: bool)
    ensures
        r == (a@ == b@),
{
    let left = a.as_bytes();
    let right = b.as_bytes();
    proof {
        encode_utf8_decode_utf8(a@);
        encode_utf8_decode_utf8(b@);
    }
    if left.len() != right.len() {
        return false;
    }
    for i in 0..left.len()
        invariant
            left@ == encode_utf8(a@),
            right@ == encode_utf8(b@),
            left@.len() == right@.len(),
            forall|k: int| 0 <= k < i ==> left@[k] == right@[k],
    {
        if left[i] != right[i] {
            return false;
        }
    }
    assert(left@ == right@);
    true
}

/// The characters of a text.
pub(crate) fn to_chars(text: &str) -> (chars: Vec<char>)
    ensures
        chars@ == text@,
{
    let mut chars: Vec<char> = Vec::new();
    for c in it: text.chars()
        invariant
            chars@ == it.seq().take(it.index()),
            it.seq() == text@,
    {
        chars.push(c);
    }
    chars
}

/// The text made of the characters from `from` up to `to`.
pub(crate) fn from_chars(chars: &Vec<char>, from: usize, to: usize) -> (text: String)
    requires
        from <= to <= chars@.len(),
    ensures
        text@ == chars@.subrange(from as int, to as int),
{
    let mut text = String::new();
    for i in from..to
        invariant
            from <= to <= chars@.len(),
            text@ == chars@.subrange(from as int, i as int),
    {
        text.push(chars[i]);
    }
    text
}

/// The position of the first character from `from` on that is not white space, or the end.
pub open spec fn first_visible(text: Seq<char>, from: int) -> int
    decreases text.len() - from,
{
    if 0 <= from < text.len() && whitespace(text[from]) {
        first_visible(text, from + 1)
    } else {
        from
    }
}

/// The position after the last character before `to` that is not white space, or `from`.
pub open spec fn after_last_visible(text: Seq<char>, from: int, to: int) -> int
    decreases to - from,
{
    if 0 <= from < to <= text.len() && whitespace(text[to - 1]) {
        after_last_visible(text, from, to - 1)
    } else {
        to
    }
}

/// A text without the white space at its start and at its end.
pub open spec fn trimmed(text: Seq<char>) -> Seq<char> {
    let from = first_visible(text, 0);
    text.subrange(from, after_last_visible(text, from, text.len() as int))
}

/// The range of `chars` that is left between the white space at both ends of `from..to`.
fn trim_range(chars: &Vec<char>, from: usize, to: usize) -> (range: (usize, usize))
    requires
        from <= to <= chars@.len(),
    ensures
        from <= range.0 <= range.1 <= to,
        chars@.subrange(range.0 as int, range.1 as int) == trimmed(
            chars@.subrange(from as int, to as int),
        ),
{
    let ghost part = chars@.subrange(from as int, to as int);
    let mut start: usize = from;
    while start < to && chars[start].is_whitespace()
        invariant
            from <= start <= to <= chars@.len(),
            part == chars@.subrange(from as int, to as int),
            first_visible(part, 0) == first_visible(part, start - from),
        decreases to - start,
    {
        assert(part[start - from] == chars@[start as int]);
        start += 1;
    }
    let mut end: usize = to;
    let ghost low = start - from;
    let ghost len = to - from;
    assert(start < to ==> part[low] == chars@[start as int]);
    while start < end && chars[end - 1].is_whitespace()
        invariant
            from <= start <= end <= to <= chars@.len(),
            part == chars@.subrange(from as int, to as int),
            low == start - from,
            len == to - from,
            after_last_visible(part, low, len) == after_last_visible(part, low, end - from),
        decreases end - start,
    {
        assert(part[end - 1 - from] == chars@[end - 1]);
        end -= 1;
    }
    assert(start < end ==> part[end - 1 - from] == chars@[end - 1]);
    assert(chars@.subrange(start as int, end as int) =~= trimmed(part));
    (start, end)
}

/// A text without the white space around it.
pub fn trim(text: &str) -> (r: String)
    ensures
        r@ == trimmed(text@),
{
    let chars = to_chars(text);
    assert(chars@.subrange(0, chars@.len() as int) == chars@);
    let range = trim_range(&chars, 0, chars.len());
    from_chars(&chars, range.0, range.1)
}

/// The trimmed characters from `from` up to `to`.
pub(crate) fn trim_chars(chars: &Vec<char>, from: usize, to: usize) -> (r: String)
    requires
        from <= to <= chars@.len(),
    ensures
        r@ == trimmed(chars@.subrange(from as int, to as int)),
{
    let range = trim_range(chars, from, to);
    from_chars(chars, range.0, range.1)
}

/// The position of the first letter or number from `from` on, or the end.
pub open spec fn first_alphanumeric(text: Seq<char>, from: int) -> int
    decreases text.len() - from,
{
    if 0 <= from < text.len() && !alphanumeric(text[from]) {
        first_alphanumeric(text, from + 1)
    } else {
        from
    }
}

/// The position of the first letter or number of a text.
pub(crate) fn find_alphanumeric(chars: &Vec<char>) -> (at: usize)
    ensures
        at <= chars@.len(),
        at == first_alphanumeric(chars@, 0),
{
    let mut at: usize = 0;
    while at < chars.len()
        invariant
            at <= chars@.len(),
            first_alphanumeric(chars@, 0) == first_alphanumeric(chars@, at as int),
        decreases chars@.len() - at,
    {
        if chars[at].is_alphanumeric() {
            return at;
        }
        at += 1;
    }
    at
}

/// The position of the first `wanted` from `from` on.
pub open spec fn position_of(text: Seq<char>, wanted: char, from: int) -> Option<int>
    decreases text.len() - from,
{
    if 0 <= from < text.len() {
        if text[from] == wanted {
            Some(from)
        } else {
            position_of(text, wanted, from + 1)
        }
    } else {
        None
    }
}

/// Finds a character at or after `from`.
pub(crate) fn find_char(chars: &Vec<char>, wanted: char, from: usize) -> (at: Option<usize>)
    requires
        from <= chars@.len(),
    ensures
        match at {
            Some(i) => from <= i < chars@.len() && position_of(chars@, wanted, from as int) == Some(
                i as int,
            ),
            None => position_of(chars@, wanted, from as int) is None,
        },
{
    let mut i: usize = from;
    while i < chars.len()
        invariant
            from <= i <= chars@.len(),
            position_of(chars@, wanted, from as int) == position_of(chars@, wanted, i as int),
        decreases chars@.len() - i,
    {
        if chars[i] == wanted {
            return Some(i);
        }
        i += 1;
    }
    None
}

/// A text without the occurrences of `term`, looked for from the left and without overlap.
pub open spec fn without_term(text: Seq<char>, term: Seq<char>) -> Seq<char>
    decreases text.len(),
{
    if term.len() == 0 || text.len() < term.len() {
        text
    } else if text.take(term.len() as int) == term {
        without_term(text.skip(term.len() as int), term)
    } else {
        seq![text[0]] + without_term(text.skip(1), term)
    }
}

/// Whether the characters of `term` stand at `at`.
pub(crate) fn matches_at(chars: &Vec<char>, at: usize, term: &Vec<char>) -> (r: bool)
    requires
        at <= chars@.len(),
    ensures
        r == (at + term@.len() <= chars@.len() && chars@.subrange(at as int, at + term@.len())
            == term@),
{
    if term.len() > chars.len() - at {
        return false;
    }
    for k in 0..term.len()
        invariant
            at + term@.len() <= chars.len(),
            forall|j: int| 0 <= j < k ==> chars@[at + j] == term@[j],
    {
        if chars[at + k] != term[k] {
            assert(chars@.subrange(at as int, at + term@.len())[k as int] != term@[k as int]);
            return false;
        }
    }
    assert(chars@.subrange(at as int, at + term@.len()) =~= term@);
    true
}

/// Cuts every occurrence of `term` out of a text.
pub fn remove_term(text: &str, term: &str) -> (r: String)
    ensures
        r@ == without_term(text@, term@),
{
    let chars = to_chars(text);
    let term_chars = to_chars(term);
    if term_chars.len() == 0 {
        return text.to_owned();
    }
    let mut r = String::new();
    let mut at: usize = 0;
    assert(chars@.skip(0) == chars@);
    while at < chars.len()
        invariant
            at <= chars@.len(),
            term_chars@ == term@,
            term@.len() > 0,
            chars@ == text@,
            without_term(text@, term@) == r@ + without_term(text@.skip(at as int), term@),
        decreases chars@.len() - at,
    {
        let ghost rest = text@.skip(at as int);
        if matches_at(&chars, at, &term_chars) {
            assert(rest.take(term@.len() as int) == chars@.subrange(at as int, at + term@.len()));
            assert(rest.skip(term@.len() as int) == text@.skip(at + term@.len()));
            at += term_chars.len();
        } else {
            proof {
                if rest.len() >= term@.len() {
                    assert(rest.take(term@.len() as int) == chars@.subrange(
                        at as int,
                        at + term@.len(),
                    ));
                    assert(without_term(rest, term@) == seq![rest[0]] + without_term(
                        rest.skip(1),
                        term@,
                    ));
                } else {
                    assert(rest.skip(1).len() < term@.len());
                    assert(rest =~= seq![rest[0]] + rest.skip(1));
                }
                assert(rest.skip(1) == text@.skip(at + 1));
            }
            let ghost before = r@;
            r.push(chars[at]);
            assert(r@ + without_term(text@.skip(at + 1), term@) =~= before + (seq![rest[0]]
                + without_term(text@.skip(at + 1), term@)));
            at += 1;
        }
    }
    assert(text@.skip(at as int).len() == 0);
    assert(r@ + without_term(text@.skip(at as int), term@) =~= r@);
    r
}

/// Whether a text begins with `prefix`.
pub fn starts_with(text: &str, prefix: &str) -> (r: bool)
    ensures
        r == prefix@.is_prefix_of(text@),
{
    let chars = to_chars(text);
    let wanted = to_chars(prefix);
    let r = matches_at(&chars, 0, &wanted);
    proof {
        if prefix@.len() <= text@.len() {
            assert(prefix@.is_prefix_of(text@) <==> text@.subrange(0, prefix@.len() as int)
                == prefix@);
        }
    }
    r
}

/// `left`, then `join`, then `right`.
pub fn combine(join: &str, left: &str, right: &str) -> (combined: String)
    ensures
        combined@ == left@ + join@ + right@,
{
    let mut combined = String::new();
    combined.append(left);
    combined.append(join);
    combined.append(right);
    combined
}

proof fn lemma_first_visible(text: Seq<char>, from: int)
    requires
        0 <= from <= text.len(),
    ensures
        from <= first_visible(text, from) <= text.len(),
        first_visible(text, from) < text.len() ==> !whitespace(
            text[first_visible(text, from)],
        ),
    decreases text.len() - from,
{
    if from < text.len() && whitespace(text[from]) {
        lemma_first_visible(text, from + 1);
    }
}

proof fn lemma_after_last_visible(text: Seq<char>, from: int, to: int)
    requires
        0 <= from <= to <= text.len(),
    ensures
        from <= after_last_visible(text, from, to) <= to,
        from < after_last_visible(text, from, to) ==> !whitespace(
            text[after_last_visible(text, from, to) - 1],
        ),
    decreases to - from,
{
    if from < to && whitespace(text[to - 1]) {
        lemma_after_last_visible(text, from, to - 1);
    }
}

/// What is trimmed has no white space at its ends, and trimming it again changes nothing.
pub proof fn law_trim_is_idempotent(text: Seq<char>)
    ensures
        trimmed(trimmed(text)) == trimmed(text),
        trimmed(text).len() > 0 ==> !whitespace(trimmed(text)[0]) && !whitespace(
            trimmed(text).last(),
        ),
{
    let from = first_visible(text, 0);
    lemma_first_visible(text, 0);
    lemma_after_last_visible(text, from, text.len() as int);
    let once = trimmed(text);
    if once.len() > 0 {
        let to = after_last_visible(text, from, text.len() as int);
        assert(once[0] == text[from]);
        assert(once.last() == text[to - 1]);
        assert(first_visible(once, 0) == 0);
        assert(after_last_visible(once, 0, once.len() as int) == once.len());
    }
    assert(trimmed(once) =~= once);
}

/// What is trimmed is a part of the text.
pub proof fn law_trim_keeps_characters(text: Seq<char>)
    ensures
        exists|from: int, to: int|
            0 <= from <= to <= text.len() && trimmed(text) == #[trigger] text.subrange(from, to),
{
    let from = first_visible(text, 0);
    lemma_first_visible(text, 0);
    lemma_after_last_visible(text, from, text.len() as int);
    let to = after_last_visible(text, from, text.len() as int);
    assert(trimmed(text) == text.subrange(from, to));
}

/// The first letter or number stands in the text, or is its end.
pub proof fn lemma_first_alphanumeric(text: Seq<char>, from: int)
    requires
        0 <= from <= text.len(),
    ensures
        from <= first_alphanumeric(text, from) <= text.len(),
    decreases text.len() - from,
{
    if from < text.len() && !alphanumeric(text[from]) {
        lemma_first_alphanumeric(text, from + 1);
    }
}

/// A character that is found stands where it was found.
pub proof fn lemma_position(text: Seq<char>, wanted: char, from: int)
    requires
        0 <= from <= text.len(),
    ensures
        match position_of(text, wanted, from) {
            Some(at) => from <= at < text.len() && text[at] == wanted,
            None => true,
        },
    decreases text.len() - from,
{
    if from < text.len() && text[from] != wanted {
        lemma_position(text, wanted, from + 1);
    }
}

} // verus!
