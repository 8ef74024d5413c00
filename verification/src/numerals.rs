//! Decimal numerals: writing a number and reading one.

use vstd::prelude::*;
use vstd::string::{StrSliceExecFns, StringExecFns};

verus! {

/// The character that writes the decimal digit `d`.
pub open spec fn digit_char(d: int) -> char {
    if d == 0 {
        '0'
    } else if d == 1 {
        '1'
    } else if d == 2 {
        '2'
    } else if d == 3 {
        '3'
    } else if d == 4 {
        '4'
    } else if d == 5 {
        '5'
    } else if d == 6 {
        '6'
    } else if d == 7 {
        '7'
    } else if d == 8 {
        '8'
    } else {
        '9'
    }
}

/// The decimal numeral of `n`: most significant digit first, no leading zero.
pub open spec fn decimal(n: nat) -> Seq<char>
    decreases n,
{
    if n < 10 {
        seq![digit_char(n as int)]
    } else {
        decimal(n / 10).push(digit_char((n % 10) as int))
    }
}

fn digit_text(d: u128) -> (text: &'static str)
    requires
        d < 10,
    ensures
        text@ == seq![digit_char(d as int)],
{
    proof {
        reveal_strlit("0");
        reveal_strlit("1");
        reveal_strlit("2");
        reveal_strlit("3");
        reveal_strlit("4");
        reveal_strlit("5");
        reveal_strlit("6");
        reveal_strlit("7");
        reveal_strlit("8");
        reveal_strlit("9");
    }
    let text = if d == 0 {
        "0"
    } else if d == 1 {
        "1"
    } else if d == 2 {
        "2"
    } else if d == 3 {
        "3"
    } else if d == 4 {
        "4"
    } else if d == 5 {
        "5"
    } else if d == 6 {
        "6"
    } else if d == 7 {
        "7"
    } else if d == 8 {
        "8"
    } else {
        "9"
    };
    assert(text@ =~= seq![digit_char(d as int)]);
    text
}

/// Appends the decimal numeral of `n` to `text`.
pub fn push_decimal(text: &mut String, n: u128)
    ensures
        final(text)@ == old(text)@ + decimal(n as nat),
    decreases n,
{
    if n >= 10 {
        push_decimal(text, n / 10);
    }
    text.append(digit_text(n % 10));
    assert(text@ =~= old(text)@ + decimal(n as nat));
}

/// A numeral has at least one digit.
proof fn lemma_decimal_nonempty(n: nat)
    ensures
        decimal(n).len() >= 1,
    decreases n,
{
    if n >= 10 {
        lemma_decimal_nonempty(n / 10);
    }
}

/// Different digits are written with different characters.
proof fn lemma_digit_char_injective(c: int, d: int)
    requires
        0 <= c < 10,
        0 <= d < 10,
        digit_char(c) == digit_char(d),
    ensures
        c == d,
{
}

/// Different numbers have different numerals.
pub proof fn lemma_decimal_injective(a: nat, b: nat)
    requires
        decimal(a) == decimal(b),
    ensures
        a == b,
    decreases a,
{
    lemma_decimal_nonempty(a / 10);
    lemma_decimal_nonempty(b / 10);
    if a < 10 {
        if b >= 10 {
            assert(decimal(b).len() == decimal(b / 10).len() + 1);
        }
        assert(decimal(a)[0] == digit_char(a as int));
        assert(decimal(b)[0] == digit_char(b as int));
        lemma_digit_char_injective(a as int, b as int);
    } else {
        assert(decimal(a).len() == decimal(a / 10).len() + 1);
        assert(decimal(a).last() == digit_char((a % 10) as int));
        assert(decimal(a).drop_last() =~= decimal(a / 10));
        assert(decimal(b).last() == digit_char((b % 10) as int));
        assert(decimal(b).drop_last() =~= decimal(b / 10));
        lemma_digit_char_injective((a % 10) as int, (b % 10) as int);
        lemma_decimal_injective(a / 10, b / 10);
    }
}

/// The digit that `c` writes, where it writes one.
pub open spec fn digit_value(c: char) -> Option<int> {
    if c == '0' {
        Some(0)
    } else if c == '1' {
        Some(1)
    } else if c == '2' {
        Some(2)
    } else if c == '3' {
        Some(3)
    } else if c == '4' {
        Some(4)
    } else if c == '5' {
        Some(5)
    } else if c == '6' {
        Some(6)
    } else if c == '7' {
        Some(7)
    } else if c == '8' {
        Some(8)
    } else if c == '9' {
        Some(9)
    } else {
        None
    }
}

/// Whether `text` is one decimal digit or more, and nothing else.
pub open spec fn is_numeral(text: Seq<char>) -> bool {
    &&& text.len() > 0
    &&& forall|k: int| 0 <= k < text.len() ==> digit_value(#[trigger] text[k]) is Some
}

/// The number that the digits of `text` write, most significant first. A
/// character that is no digit counts as zero.
pub open spec fn numeral_value(text: Seq<char>) -> nat
    decreases text.len(),
{
    if text.len() == 0 {
        0
    } else {
        let last: int = match digit_value(text.last()) {
            Some(d) => d,
            None => 0,
        };
        (numeral_value(text.drop_last()) * 10 + last) as nat
    }
}

/// How many characters of `text` are its sign: one for a leading `+` or
/// `-`, else none.
pub open spec fn sign_length(text: Seq<char>) -> int {
    if text.len() > 0 && (text[0] == '-' || text[0] == '+') {
        1
    } else {
        0
    }
}

/// The number that `text` writes as a signed 32-bit integer: a `+` or `-`
/// or neither, then digits only, at least one, and a value in the range of
/// the type. Every other text writes none.
pub open spec fn parse_i32_spec(text: Seq<char>) -> Option<i32> {
    let digits = text.subrange(sign_length(text), text.len() as int);
    let magnitude = numeral_value(digits) as int;
    let value = if text.len() > 0 && text[0] == '-' {
        -magnitude
    } else {
        magnitude
    };
    if is_numeral(digits) && i32::MIN <= value <= i32::MAX {
        Some(value as i32)
    } else {
        None
    }
}

/// A numeral is worth at least as much as any of its beginnings.
proof fn lemma_numeral_beginning(text: Seq<char>, end: int)
    requires
        0 <= end <= text.len(),
    ensures
        numeral_value(text.subrange(0, end)) <= numeral_value(text),
    decreases text.len(),
{
    if end == text.len() {
        assert(text.subrange(0, end) =~= text);
    } else {
        lemma_numeral_beginning(text.drop_last(), end);
        assert(text.drop_last().subrange(0, end) =~= text.subrange(0, end));
    }
}

fn digit_of(c: char) -> (digit: Option<i64>)
    ensures
        match digit {
            Some(d) => digit_value(c) == Some(d as int),
            None => digit_value(c) is None,
        },
{
    if c == '0' {
        Some(0)
    } else if c == '1' {
        Some(1)
    } else if c == '2' {
        Some(2)
    } else if c == '3' {
        Some(3)
    } else if c == '4' {
        Some(4)
    } else if c == '5' {
        Some(5)
    } else if c == '6' {
        Some(6)
    } else if c == '7' {
        Some(7)
    } else if c == '8' {
        Some(8)
    } else if c == '9' {
        Some(9)
    } else {
        None
    }
}

/// Reads a signed 32-bit integer.
pub fn parse_i32(text: &str) -> (parsed: Option<i32>)
    ensures
        parsed == parse_i32_spec(text@),
{
    let length = text.unicode_len();
    if length == 0 {
        return None;
    }
    let first = text.get_char(0);
    let negative = first == '-';
    let start: usize = if first == '-' || first == '+' {
        1
    } else {
        0
    };
    let ghost digits = text@.subrange(start as int, length as int);
    if start == length {
        return None;
    }
    let mut magnitude: i64 = 0;
    let mut index: usize = start;
    while index < length
        invariant
            start <= index <= length,
            length == text@.len(),
            start == sign_length(text@),
            digits == text@.subrange(start as int, length as int),
            forall|k: int| start <= k < index ==> digit_value(#[trigger] text@[k]) is Some,
            magnitude == numeral_value(text@.subrange(start as int, index as int)),
            magnitude <= 0x8000_0000,
        decreases length - index,
    {
        let c = text.get_char(index);
        let ghost beginning = text@.subrange(start as int, index + 1);
        proof {
            assert(beginning.drop_last() =~= text@.subrange(start as int, index as int));
            assert(beginning.last() == c);
            assert(beginning =~= digits.subrange(0, index + 1 - start));
            lemma_numeral_beginning(digits, index + 1 - start);
        }
        match digit_of(c) {
            None => {
                assert(digits[index - start] == c);
                return None;
            },
            Some(d) => {
                magnitude = magnitude * 10 + d;
                if magnitude > 0x8000_0000 {
                    return None;
                }
            },
        }
        index = index + 1;
    }
    proof {
        assert(text@.subrange(start as int, index as int) =~= digits);
        assert forall|k: int| 0 <= k < digits.len() implies digit_value(#[trigger] digits[k])
            is Some by {
            assert(digits[k] == text@[k + start]);
        }
    }
    if negative {
        Some((-magnitude) as i32)
    } else if magnitude == 0x8000_0000 {
        None
    } else {
        Some(magnitude as i32)
    }
}

/// The character of a digit writes that digit.
proof fn lemma_digit_reads_back(d: int)
    requires
        0 <= d < 10,
    ensures
        digit_value(digit_char(d)) == Some(d),
{
}

/// What `decimal` writes, `numeral_value` reads back.
pub proof fn lemma_decimal_reads_back(n: nat)
    ensures
        is_numeral(decimal(n)),
        numeral_value(decimal(n)) == n,
    decreases n,
{
    if n < 10 {
        lemma_digit_reads_back(n as int);
        assert(decimal(n).drop_last() =~= Seq::<char>::empty());
        assert(numeral_value(Seq::<char>::empty()) == 0);
        assert(decimal(n).last() == digit_char(n as int));
    } else {
        lemma_decimal_reads_back(n / 10);
        lemma_digit_reads_back((n % 10) as int);
        assert(decimal(n).drop_last() =~= decimal(n / 10));
        assert(decimal(n).last() == digit_char((n % 10) as int));
        assert forall|k: int| 0 <= k < decimal(n).len() implies digit_value(
            #[trigger] decimal(n)[k],
        ) is Some by {
            if k < decimal(n / 10).len() {
                assert(decimal(n)[k] == decimal(n / 10)[k]);
            }
        }
    }
}

} // verus!
