//! Decimal numbers as text.

use crate::text::chars_of;
use vstd::prelude::*;

verus! {

pub open spec fn is_digit(c: char) -> bool {
    '0' <= c <= '9'
}

/// Whether `s` is one or more decimal digits.
pub open spec fn all_digits(s: Seq<char>) -> bool {
    s.len() > 0 && forall|i: int| 0 <= i < s.len() ==> is_digit(#[trigger] s[i])
}

/// The number that decimal digits write.
pub open spec fn digits_value(s: Seq<char>) -> nat
    decreases s.len(),
{
    if s.len() == 0 {
        0
    } else {
        10 * digits_value(s.drop_last()) + (s.last() as nat - '0' as nat) as nat
    }
}

/// The digits of a number without a sign, a leading `+` set aside.
pub open spec fn unsigned_digits(s: Seq<char>) -> Seq<char> {
    if s.len() > 0 && s[0] == '+' {
        s.skip(1)
    } else {
        s
    }
}

/// The number up to `max` that `s` writes: digits, with or without a `+`.
pub open spec fn unsigned_value(s: Seq<char>, max: nat) -> Option<nat> {
    let digits = unsigned_digits(s);
    if all_digits(digits) && digits_value(digits) <= max {
        Some(digits_value(digits))
    } else {
        None
    }
}

/// The `i64` that `s` writes: digits, with or without a `+` or a `-`.
pub open spec fn signed_value(s: Seq<char>) -> Option<int> {
    let (digits, value) = if s.len() > 0 && s[0] == '-' {
        (s.skip(1), -(digits_value(s.skip(1)) as int))
    } else {
        (unsigned_digits(s), digits_value(unsigned_digits(s)) as int)
    };
    if all_digits(digits) && i64::MIN <= value <= i64::MAX {
        Some(value)
    } else {
        None
    }
}

fn digit_of(c: char) -> (d: Option<u64>)
    ensures
        d matches Some(v) ==> is_digit(c) && v == c as int - '0' as int,
        d is None ==> !is_digit(c),
{
    match c {
        '0' => Some(0),
        '1' => Some(1),
        '2' => Some(2),
        '3' => Some(3),
        '4' => Some(4),
        '5' => Some(5),
        '6' => Some(6),
        '7' => Some(7),
        '8' => Some(8),
        '9' => Some(9),
        _ => None,
    }
}

proof fn lemma_value_grows(s: Seq<char>, i: int)
    requires
        0 <= i <= s.len(),
    ensures
        digits_value(s.take(i)) <= digits_value(s),
    decreases s.len() - i,
{
    if i < s.len() {
        lemma_value_grows(s, i + 1);
        assert(s.take(i + 1).drop_last() =~= s.take(i));
    } else {
        assert(s.take(i) =~= s);
    }
}

/// The value of the digits `chars[from..]`, up to `max`.
fn digits_from(chars: &Vec<char>, from: usize, max: u64) -> (value: Option<u64>)
    requires
        from <= chars@.len(),
    ensures
        value matches Some(v) ==> all_digits(chars@.skip(from as int)) && v == digits_value(
            chars@.skip(from as int),
        ) && v <= max,
        value is None ==> !all_digits(chars@.skip(from as int)) || digits_value(
            chars@.skip(from as int),
        ) > max,
{
    let ghost s = chars@.skip(from as int);
    if from == chars.len() {
        return None;
    }
    let mut value: u64 = 0;
    let mut i: usize = from;
    while i < chars.len()
        invariant
            from <= i <= chars@.len(),
            s == chars@.skip(from as int),
            forall|j: int| 0 <= j < i - from ==> is_digit(#[trigger] s[j]),
            value == digits_value(s.take(i - from)),
            value <= max,
        decreases chars@.len() - i,
    {
        let c = chars[i];
        assert(s[i - from] == c);
        let digit = match digit_of(c) {
            Some(d) => d,
            None => {
                return None;
            },
        };
        proof {
            lemma_value_grows(s, i - from + 1);
            assert(s.take(i - from + 1).drop_last() =~= s.take(i - from));
        }
        if digit > max || value > (max - digit) / 10 {
            return None;
        }
        value = 10 * value + digit;
        i += 1;
    }
    assert(s.take(i - from) =~= s);
    Some(value)
}

/// The `u64` that `s` writes.
pub fn parse_u64(s: &str) -> (value: Option<u64>)
    ensures
        match value {
            Some(v) => unsigned_value(s@, u64::MAX as nat) == Some(v as nat),
            None => unsigned_value(s@, u64::MAX as nat) is None,
        },
{
    let chars = chars_of(s);
    let from: usize = if chars.len() > 0 && chars[0] == '+' {
        1
    } else {
        0
    };
    assert(from == 0 ==> chars@.skip(0) =~= s@);
    digits_from(&chars, from, u64::MAX)
}

/// The `u32` that `s` writes.
pub fn parse_u32(s: &str) -> (value: Option<u32>)
    ensures
        match value {
            Some(v) => unsigned_value(s@, u32::MAX as nat) == Some(v as nat),
            None => unsigned_value(s@, u32::MAX as nat) is None,
        },
{
    let chars = chars_of(s);
    let from: usize = if chars.len() > 0 && chars[0] == '+' {
        1
    } else {
        0
    };
    assert(from == 0 ==> chars@.skip(0) =~= s@);
    match digits_from(&chars, from, u32::MAX as u64) {
        Some(v) => Some(v as u32),
        None => None,
    }
}

/// The `i64` that `s` writes.
pub fn parse_i64(s: &str) -> (value: Option<i64>)
    ensures
        match value {
            Some(v) => signed_value(s@) == Some(v as int),
            None => signed_value(s@) is None,
        },
{
    let chars = chars_of(s);
    if chars.len() > 0 && chars[0] == '-' {
        match digits_from(&chars, 1, 0x8000_0000_0000_0000) {
            Some(v) => if v == 0x8000_0000_0000_0000 {
                Some(i64::MIN)
            } else {
                Some(-(v as i64))
            },
            None => None,
        }
    } else {
        let from: usize = if chars.len() > 0 && chars[0] == '+' {
            1
        } else {
            0
        };
        assert(from == 0 ==> chars@.skip(0) =~= s@);
        match digits_from(&chars, from, i64::MAX as u64) {
            Some(v) => Some(v as i64),
            None => None,
        }
    }
}

/// The digit that writes `d`, for `d` below ten.
pub open spec fn digit_char(d: nat) -> char {
    ('0' as u32 + d) as char
}

/// A number in decimal, without leading zeros.
pub open spec fn decimal(n: nat) -> Seq<char>
    decreases n,
{
    if n < 10 {
        seq![digit_char(n)]
    } else {
        decimal(n / 10).push(digit_char(n % 10))
    }
}

fn char_of_digit(d: u64) -> (c: char)
    requires
        d < 10,
    ensures
        c == digit_char(d as nat),
{
    match d {
        0 => '0',
        1 => '1',
        2 => '2',
        3 => '3',
        4 => '4',
        5 => '5',
        6 => '6',
        7 => '7',
        8 => '8',
        _ => '9',
    }
}

/// `n` in decimal.
pub fn decimal_text(n: u64) -> (s: String)
    ensures
        s@ == decimal(n as nat),
    decreases n,
{
    if n < 10 {
        let mut s = String::new();
        s.push(char_of_digit(n));
        assert(s@ =~= decimal(n as nat));
        s
    } else {
        let mut s = decimal_text(n / 10);
        s.push(char_of_digit(n % 10));
        s
    }
}

/// Reading a number in decimal gives the number back.
pub proof fn lemma_decimal_value(n: nat)
    ensures
        all_digits(decimal(n)),
        digits_value(decimal(n)) == n,
    decreases n,
{
    if n < 10 {
        let s = decimal(n);
        assert(s.drop_last() =~= seq![]);
        assert(digits_value(s.drop_last()) == 0);
    } else {
        lemma_decimal_value(n / 10);
        assert(decimal(n).drop_last() =~= decimal(n / 10));
    }
}

/// `parse_u64` undoes `decimal_text`.
pub proof fn lemma_unsigned_decimal(n: nat, max: nat)
    requires
        n <= max,
    ensures
        unsigned_value(decimal(n), max) == Some(n),
{
    lemma_decimal_value(n);
    assert(is_digit(decimal(n)[0]));
}

// ---------------------------------------------------------------------------
// Laws
// ---------------------------------------------------------------------------

/// Digits are read from the left, each ten times as heavy as the one behind it.
pub proof fn lemma_digits_from_the_left(s: Seq<char>, d: nat)
    requires
        d < 10,
    ensures
        digits_value(Seq::<char>::empty()) == 0,
        digits_value(s.push(('0' as u32 + d) as char)) == 10 * digits_value(s) + d,
        is_digit(('0' as u32 + d) as char),
{
    assert(s.push(('0' as u32 + d) as char).drop_last() =~= s);
}

/// Text is an unsigned number exactly where it is one or more digits, behind one
/// plus sign at most, whose value is in range.
pub proof fn lemma_unsigned_numbers(s: Seq<char>, max: nat)
    ensures
        ({
            let digits = s.len() > 0 && forall|i: int|
                0 <= i < s.len() ==> '0' <= #[trigger] s[i] <= '9';
            &&& digits && digits_value(s) <= max ==> unsigned_value(s, max) == Some(
                digits_value(s),
            ) && unsigned_value(seq!['+'] + s, max) == Some(digits_value(s))
            &&& digits && digits_value(s) > max ==> unsigned_value(s, max) is None
                && unsigned_value(seq!['+'] + s, max) is None
            &&& !digits ==> unsigned_value(seq!['+'] + s, max) is None
            &&& !digits && !(s.len() > 0 && s[0] == '+') ==> unsigned_value(s, max) is None
        }),
{
    let signed = seq!['+'] + s;
    assert(signed.skip(1) =~= s);
    assert(signed[0] == '+');
    if s.len() > 0 && forall|i: int| 0 <= i < s.len() ==> '0' <= #[trigger] s[i] <= '9' {
        assert('0' <= s[0] <= '9');
        assert(all_digits(s));
    } else if all_digits(s) {
        assert forall|i: int| 0 <= i < s.len() implies '0' <= #[trigger] s[i] <= '9' by {
            assert(is_digit(s[i]));
        }
    }
}

/// Text is a signed number exactly where it is one or more digits, behind one
/// sign at most, whose value is in range. A minus sign makes it negative.
pub proof fn lemma_signed_numbers(s: Seq<char>)
    ensures
        ({
            let digits = s.len() > 0 && forall|i: int|
                0 <= i < s.len() ==> '0' <= #[trigger] s[i] <= '9';
            let value = digits_value(s);
            &&& digits && value <= i64::MAX ==> signed_value(s) == Some(value as int)
                && signed_value(seq!['+'] + s) == Some(value as int)
            &&& digits && value <= i64::MAX + 1 ==> signed_value(seq!['-'] + s) == Some(
                -(value as int),
            )
            &&& digits && value > i64::MAX ==> signed_value(s) is None && signed_value(
                seq!['+'] + s,
            ) is None
            &&& digits && value > i64::MAX + 1 ==> signed_value(seq!['-'] + s) is None
            &&& !digits ==> signed_value(seq!['+'] + s) is None && signed_value(
                seq!['-'] + s,
            ) is None
            &&& !digits && !(s.len() > 0 && (s[0] == '+' || s[0] == '-')) ==> signed_value(
                s,
            ) is None
        }),
{
    let plus = seq!['+'] + s;
    let minus = seq!['-'] + s;
    assert(plus.skip(1) =~= s);
    assert(plus[0] == '+');
    assert(minus.skip(1) =~= s);
    assert(minus[0] == '-');
    if s.len() > 0 && forall|i: int| 0 <= i < s.len() ==> '0' <= #[trigger] s[i] <= '9' {
        assert('0' <= s[0] <= '9');
        assert(all_digits(s));
    } else if all_digits(s) {
        assert forall|i: int| 0 <= i < s.len() implies '0' <= #[trigger] s[i] <= '9' by {
            assert(is_digit(s[i]));
        }
    }
}

/// A number in decimal has digits only, reads back as the number, and begins
/// with a zero only where it is zero.
pub proof fn lemma_decimal_without_leading_zeros(n: nat)
    ensures
        decimal(n).len() > 0,
        forall|i: int| 0 <= i < decimal(n).len() ==> '0' <= #[trigger] decimal(n)[i] <= '9',
        digits_value(decimal(n)) == n,
        n > 0 ==> decimal(n)[0] != '0',
        decimal(0) == seq!['0'],
    decreases n,
{
    lemma_decimal_value(n);
    assert forall|i: int| 0 <= i < decimal(n).len() implies '0' <= #[trigger] decimal(n)[i]
        <= '9' by {
        assert(is_digit(decimal(n)[i]));
    }
    if n >= 10 {
        lemma_decimal_without_leading_zeros(n / 10);
    }
}

} // verus!
