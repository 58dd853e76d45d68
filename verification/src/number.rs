//! Numbers as decimal text, both ways.
use vstd::prelude::*;

use crate::text::chars_of;

verus! {

/// The character of a decimal digit.
pub open spec fn digit(value: nat) -> char {
    (48 + value) as char
}

/// A natural number in decimal, without leading zeros.
pub open spec fn digits(value: nat) -> Seq<char>
    decreases value,
{
    if value < 10 {
        seq![digit(value)]
    } else {
        digits(value / 10).push(digit(value % 10))
    }
}

/// An integer in decimal, with a minus sign before a negative one.
pub open spec fn decimal(value: int) -> Seq<char> {
    if value < 0 {
        seq!['-'] + digits((-value) as nat)
    } else {
        digits(value as nat)
    }
}

fn push_digits(value: u64, text: &mut String)
    ensures
        final(text)@ == old(text)@ + digits(value as nat),
    decreases value,
{
    if value >= 10 {
        push_digits(value / 10, text);
    }
    let last: u8 = 48 + (value % 10) as u8;
    text.push(last as char);
    assert(text@ =~= old(text)@ + digits(value as nat));
}

/// Writes a natural number in decimal.
pub fn unsigned_text(value: u64) -> (text: String)
    ensures
        text@ == digits(value as nat),
        text@ == decimal(value as int),
{
    let mut text = String::new();
    push_digits(value, &mut text);
    assert(text@ =~= digits(value as nat));
    text
}

/// Writes an integer in decimal.
pub fn signed_text(value: i64) -> (text: String)
    ensures
        text@ == decimal(value as int),
{
    if value >= 0 {
        return unsigned_text(value as u64);
    }
    let mut text = String::new();
    text.push('-');
    let magnitude: u64 = (-(value + 1)) as u64 + 1;
    push_digits(magnitude, &mut text);
    assert(text@ =~= decimal(value as int));
    text
}

/// Whether the character is one of the ten decimal digits.
pub open spec fn is_digit(ch: char) -> bool {
    '0' <= ch <= '9'
}

/// The number that a run of decimal digits stands for.
pub open spec fn digits_value(text: Seq<char>) -> nat
    decreases text.len(),
{
    if text.len() == 0 {
        0
    } else {
        10 * digits_value(text.drop_last()) + (text.last() as nat - 48) as nat
    }
}

/// Whether the text is one digit or more, and nothing else.
pub open spec fn all_digits(text: Seq<char>) -> bool {
    text.len() > 0 && forall|i: int| 0 <= i < text.len() ==> is_digit(#[trigger] text[i])
}

/// The 64-bit integer that a text writes: an optional sign and digits, in range.
pub open spec fn integer_value(text: Seq<char>) -> Option<int> {
    let negative = text.len() > 0 && text[0] == '-';
    let signed = text.len() > 0 && (text[0] == '-' || text[0] == '+');
    let body = if signed {
        text.skip(1)
    } else {
        text
    };
    let value = if negative {
        -(digits_value(body) as int)
    } else {
        digits_value(body) as int
    };
    if all_digits(body) && i64::MIN <= value <= i64::MAX {
        Some(value)
    } else {
        None
    }
}

proof fn lemma_digits_value_grows(text: Seq<char>, upto: int)
    requires
        0 <= upto <= text.len(),
    ensures
        digits_value(text.take(upto)) <= digits_value(text),
    decreases text.len(),
{
    if upto < text.len() {
        lemma_digits_value_grows(text.drop_last(), upto);
        assert(text.drop_last().take(upto) =~= text.take(upto));
    } else {
        assert(text.take(upto) =~= text);
    }
}

/// Reads a 64-bit integer in decimal.
pub fn parse_integer(text: &str) -> (value: Option<i64>)
    ensures
        match value {
            Some(number) => integer_value(text@) == Some(number as int),
            None => integer_value(text@) is None,
        },
{
    let chars = chars_of(text);
    let negative = chars.len() > 0 && chars[0] == '-';
    let start: usize = if chars.len() > 0 && (chars[0] == '-' || chars[0] == '+') {
        1
    } else {
        0
    };
    let ghost body = text@.skip(start as int);
    proof {
        if start == 0 {
            assert(body =~= text@);
        }
    }
    if start == chars.len() {
        return None;
    }
    let limit: u64 = 0x8000_0000_0000_0000;
    let mut total: u64 = 0;
    let mut i: usize = start;
    while i < chars.len()
        invariant
            start <= i <= chars.len(),
            chars@ == text@,
            body == text@.skip(start as int),
            body.len() == chars.len() - start,
            limit == 0x8000_0000_0000_0000,
            total <= limit,
            total == digits_value(body.take(i - start)),
            forall|j: int| 0 <= j < i - start ==> is_digit(#[trigger] body[j]),
            integer_value(text@) is Some ==> all_digits(body) && digits_value(body) <= limit,
        decreases chars.len() - i,
    {
        let ch = chars[i];
        assert(ch == body[i - start]);
        if !('0' <= ch && ch <= '9') {
            assert(!is_digit(body[i - start]));
            return None;
        }
        let step: u64 = ch as u64 - 48;
        proof {
            assert(body.take(i + 1 - start).drop_last() =~= body.take(i - start));
            lemma_digits_value_grows(body, i + 1 - start);
        }
        if total > (limit - step) / 10 {
            return None;
        }
        total = total * 10 + step;
        i = i + 1;
    }
    assert(body.take(body.len() as int) =~= body);
    if negative {
        if total == limit {
            Some(i64::MIN)
        } else {
            Some(-(total as i64))
        }
    } else if total == limit {
        None
    } else {
        Some(total as i64)
    }
}

/// Digits are digits, and stand for the number that they were written for.
pub proof fn digits_are_read_back(value: nat)
    ensures
        all_digits(digits(value)),
        digits_value(digits(value)) == value,
    decreases value,
{
    if value < 10 {
        assert(digits(value).drop_last() =~= seq![]);
        assert(digits_value(digits(value).drop_last()) == 0);
    } else {
        digits_are_read_back(value / 10);
        assert(digits(value).drop_last() =~= digits(value / 10));
    }
}

/// An integer that was written is read back as it was.
pub proof fn integers_are_read_back(value: i64)
    ensures
        integer_value(decimal(value as int)) == Some(value as int),
{
    let size: nat = if value < 0 {
        (-value) as nat
    } else {
        value as nat
    };
    digits_are_read_back(size);
    let text = decimal(value as int);
    if value < 0 {
        assert(text.skip(1) =~= digits(size));
    } else {
        assert(is_digit(text[0]));
    }
}

/// The digits are the ten of them, in order.
pub proof fn there_are_ten_digits()
    ensures
        seq![
            digits(0),
            digits(1),
            digits(2),
            digits(3),
            digits(4),
            digits(5),
            digits(6),
            digits(7),
            digits(8),
            digits(9),
        ] == seq![
            seq!['0'],
            seq!['1'],
            seq!['2'],
            seq!['3'],
            seq!['4'],
            seq!['5'],
            seq!['6'],
            seq!['7'],
            seq!['8'],
            seq!['9'],
        ],
{
    assert(digits(0) =~= seq!['0']);
    assert(digits(1) =~= seq!['1']);
    assert(digits(2) =~= seq!['2']);
    assert(digits(3) =~= seq!['3']);
    assert(digits(4) =~= seq!['4']);
    assert(digits(5) =~= seq!['5']);
    assert(digits(6) =~= seq!['6']);
    assert(digits(7) =~= seq!['7']);
    assert(digits(8) =~= seq!['8']);
    assert(digits(9) =~= seq!['9']);
}

/// A number of tens and ones is written as its tens and then its ones.
pub proof fn tens_come_before_ones(tens: nat, ones: nat)
    requires
        tens > 0,
        ones < 10,
    ensures
        digits(10 * tens + ones) == digits(tens) + digits(ones),
{
    assert((10 * tens + ones) / 10 == tens && (10 * tens + ones) % 10 == ones);
    assert(digits(tens).push(digit(ones)) =~= digits(tens) + digits(ones));
}

/// An integer is written by its digits, with a minus sign before a negative one.
pub proof fn minus_signs_come_first(value: nat)
    ensures
        decimal(value as int) == digits(value),
        value > 0 ==> decimal(-(value as int)) == seq!['-'] + digits(value),
{
}

/// The value of a run of digits: none is nothing, and each one more makes ten of what is
/// before it, and adds its own.
pub proof fn each_digit_counts(text: Seq<char>, ch: char)
    requires
        '0' <= ch <= '9',
    ensures
        digits_value(seq![]) == 0,
        digits_value(text.push(ch)) == 10 * digits_value(text) + (ch as int - '0' as int),
{
    assert(text.push(ch).drop_last() =~= text);
}

/// A text writes an integer exactly where it is digits behind at most one sign, and the
/// integer is in range.
pub proof fn integers_are_signs_and_digits(text: Seq<char>)
    ensures
        ({
            let plain = text.len() > 0 && forall|i: int|
                0 <= i < text.len() ==> '0' <= #[trigger] text[i] <= '9';
            let rest = text.skip(1);
            let signed = text.len() > 1 && forall|i: int|
                0 <= i < rest.len() ==> '0' <= #[trigger] rest[i] <= '9';
            let plus = text.len() > 0 && text[0] == '+' && signed;
            let minus = text.len() > 0 && text[0] == '-' && signed;
            &&& plain && digits_value(text) <= i64::MAX ==> integer_value(text) == Some(
                digits_value(text) as int,
            )
            &&& plus && digits_value(rest) <= i64::MAX ==> integer_value(text) == Some(
                digits_value(rest) as int,
            )
            &&& minus && -digits_value(rest) >= i64::MIN ==> integer_value(text) == Some(
                -digits_value(rest),
            )
            &&& plain && digits_value(text) > i64::MAX ==> integer_value(text) is None
            &&& plus && digits_value(rest) > i64::MAX ==> integer_value(text) is None
            &&& minus && -digits_value(rest) < i64::MIN ==> integer_value(text) is None
            &&& !plain && !plus && !minus ==> integer_value(text) is None
        }),
{
    let rest = text.skip(1);
    if text.len() > 0 && (text[0] == '-' || text[0] == '+') {
        assert(!('0' <= text[0] <= '9'));
    }
}

}
