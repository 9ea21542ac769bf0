//! Numbers as decimal texts.
use crate::text::to_chars;
use vstd::prelude::*;

verus! {

/// The digit for a number below ten.
pub open spec fn digit(value: nat) -> char {
    (0x30 + value) as char
}

/// A number in decimal digits, without leading zeros.
pub open spec fn decimal(value: nat) -> Seq<char>
    decreases value,
{
    if value < 10 {
        seq![digit(value)]
    } else {
        decimal(value / 10).push(digit(value % 10))
    }
}

/// Whether a character is a decimal digit.
pub open spec fn is_digit(c: char) -> bool {
    '0' <= c <= '9'
}

/// Whether a text is made of decimal digits.
pub open spec fn all_digits(text: Seq<char>) -> bool {
    forall|i: int| 0 <= i < text.len() ==> is_digit(#[trigger] text[i])
}

/// The number that decimal digits denote.
pub open spec fn digits_value(text: Seq<char>) -> nat
    decreases text.len(),
{
    if text.len() == 0 {
        0
    } else {
        10 * digits_value(text.drop_last()) + (text.last() as int - 0x30) as nat
    }
}

/// A text without one plus sign in front.
pub open spec fn unsigned_part(text: Seq<char>) -> Seq<char> {
    if text.len() > 0 && text[0] == '+' {
        text.skip(1)
    } else {
        text
    }
}

/// The number that a text denotes: decimal digits, at least one, with a plus sign in front or
/// without, and not more than fits in 32 bits.
pub open spec fn u32_value(text: Seq<char>) -> Option<u32> {
    let digits = unsigned_part(text);
    if digits.len() == 0 || !all_digits(digits) || digits_value(digits) > u32::MAX {
        None
    } else {
        Some(digits_value(digits) as u32)
    }
}

/// Writes a number in decimal digits.
pub fn to_decimal(value: u64) -> (text: String)
    ensures
        text@ == decimal(value as nat),
    decreases value,
{
    let mut text = if value < 10 {
        String::new()
    } else {
        to_decimal(value / 10)
    };
    let last: u8 = (value % 10) as u8;
    let ghost before = text@;
    text.push((0x30 + last) as char);
    assert(text@ =~= before.push(digit((value % 10) as nat)));
    text
}

proof fn lemma_longer_is_larger(text: Seq<char>, length: int)
    requires
        0 <= length <= text.len(),
        all_digits(text),
    ensures
        digits_value(text.take(length)) <= digits_value(text),
    decreases text.len() - length,
{
    if length == text.len() {
        assert(text.take(length) =~= text);
    } else {
        lemma_longer_is_larger(text, length + 1);
        assert(text.take(length + 1).drop_last() =~= text.take(length));
    }
}

/// Reads a number.
pub fn parse_u32(text: &str) -> (value: Option<u32>)
    ensures
        value == u32_value(text@),
{
    let chars = to_chars(text);
    let start: usize = if chars.len() > 0 && chars[0] == '+' {
        1
    } else {
        0
    };
    let ghost digits = unsigned_part(text@);
    assert(digits =~= chars@.skip(start as int));
    if start == chars.len() {
        return None;
    }
    let mut value: u64 = 0;
    for i in start..chars.len()
        invariant
            start <= chars@.len(),
            digits == unsigned_part(text@),
            digits == chars@.skip(start as int),
            value == digits_value(digits.take(i - start)),
            value <= u32::MAX,
            forall|k: int| 0 <= k < i - start ==> is_digit(#[trigger] digits[k]),
    {
        let c = chars[i];
        assert(digits[i - start] == c);
        if !('0' <= c && c <= '9') {
            return None;
        }
        assert(digits.take(i + 1 - start).drop_last() =~= digits.take(i - start));
        value = 10 * value + (c as u64 - 0x30);
        if value > 0xffff_ffff {
            proof {
                if all_digits(digits) {
                    lemma_longer_is_larger(digits, i + 1 - start);
                }
            }
            return None;
        }
    }
    assert(digits.take(digits.len() as int) =~= digits);
    Some(value as u32)
}

proof fn lemma_decimal_value(value: nat)
    ensures
        decimal(value).len() > 0,
        all_digits(decimal(value)),
        digits_value(decimal(value)) == value,
    decreases value,
{
    if value < 10 {
        assert(decimal(value).drop_last() =~= Seq::empty());
        assert(digits_value(decimal(value).drop_last()) == 0);
        assert(decimal(value).last() as int == 0x30 + value);
    } else {
        lemma_decimal_value(value / 10);
        assert(decimal(value).drop_last() =~= decimal(value / 10));
        assert(decimal(value).last() as int == 0x30 + value % 10);
    }
}

/// A number that was written is read again.
pub proof fn law_decimal_is_read_again(value: u32)
    ensures
        u32_value(decimal(value as nat)) == Some(value),
        u32_value(seq!['+'] + decimal(value as nat)) == Some(value),
{
    lemma_decimal_value(value as nat);
    let text = decimal(value as nat);
    assert(is_digit(text[0]));
    assert((seq!['+'] + text).skip(1) =~= text);
}

/// A number is written in digits, and different numbers in different ones.
pub proof fn law_decimal_is_made_of_digits(value: nat, other: nat)
    ensures
        decimal(value).len() > 0,
        forall|i: int|
            0 <= i < decimal(value).len() ==> '0' <= (#[trigger] decimal(value)[i]) <= '9',
        decimal(value)[0] == '0' <==> value == 0,
        decimal(value) == decimal(other) ==> value == other,
    decreases value,
{
    lemma_decimal_value(value);
    lemma_decimal_value(other);
    assert forall|i: int| 0 <= i < decimal(value).len() implies '0' <= (
    #[trigger] decimal(value)[i]) <= '9' by {
        assert(is_digit(decimal(value)[i]));
    }
    if value < 10 {
        assert(decimal(value)[0] as int == 0x30 + value);
    } else {
        law_decimal_is_made_of_digits(value / 10, other);
        assert(decimal(value)[0] == decimal(value / 10)[0]);
    }
}

/// Digits denote ten times what those before the last one denote, and the last one more.
pub proof fn law_value_of_digits(text: Seq<char>, value: nat)
    requires
        value < 10,
    ensures
        digits_value(Seq::empty()) == 0,
        digits_value(text.push(digit(value))) == 10 * digits_value(text) + value,
{
    let longer = text.push(digit(value));
    assert(longer.drop_last() =~= text);
    assert(longer.last() as int == 0x30 + value);
}

/// A text denotes a number exactly if it is made of digits, at least one, behind at most one plus
/// sign, and what they denote fits.
pub proof fn law_texts_that_are_numbers(text: Seq<char>)
    ensures
        u32_value(Seq::empty()) is None,
        u32_value(seq!['+']) is None,
        text.len() > 0 && text[0] != '+' ==> {
            &&& u32_value(text) is Some <==> all_digits(text) && digits_value(text)
                <= 0xffff_ffff
            &&& u32_value(text) is Some ==> u32_value(text)->0 == digits_value(text)
            &&& u32_value(seq!['+'] + text) == u32_value(text)
        },
        text.len() > 0 && text[0] == '+' ==> u32_value(seq!['+'] + text) is None,
{
    assert((seq!['+'] + text).skip(1) =~= text);
    if text.len() > 0 && text[0] == '+' {
        assert(!is_digit(text[0]));
    }
}

} // verus!
