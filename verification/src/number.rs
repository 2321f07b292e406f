//! Numbers written in decimal digits.
use vstd::prelude::*;

use crate::text::chars_of;

verus! {

/// Whether a character is a decimal digit.
pub open spec fn digit(c: char) -> bool {
    '0' <= c <= '9'
}

/// Whether a text is made of decimal digits alone.
pub open spec fn all_digits(s: Seq<char>) -> bool {
    forall|i: int| 0 <= i < s.len() ==> digit(#[trigger] s[i])
}

/// The number that decimal digits stand for.
pub open spec fn digits_value(s: Seq<char>) -> int
    decreases s.len(),
{
    if s.len() == 0 {
        0
    } else {
        digits_value(s.drop_last()) * 10 + (s.last() as u32 - '0' as u32)
    }
}

/// The number, up to `max`, that one or more decimal digits stand for.
pub open spec fn bounded_value(s: Seq<char>, max: int) -> Option<int> {
    if s.len() > 0 && all_digits(s) && digits_value(s) <= max {
        Some(digits_value(s))
    } else {
        None
    }
}

/// The number that a text stands for: one or more decimal digits, with or
/// without a `+` before them, and not over `u16::MAX`.
pub open spec fn u16_value(s: Seq<char>) -> Option<int> {
    if s.len() > 0 && s.first() == '+' {
        bounded_value(s.drop_first(), u16::MAX as int)
    } else {
        bounded_value(s, u16::MAX as int)
    }
}

/// The number that a text stands for: one or more decimal digits, with or
/// without a sign before them, and within the range of `i32`.
pub open spec fn i32_value(s: Seq<char>) -> Option<int> {
    if s.len() > 0 && s.first() == '-' {
        match bounded_value(s.drop_first(), -(i32::MIN as int)) {
            Some(n) => Some(-n),
            None => None,
        }
    } else if s.len() > 0 && s.first() == '+' {
        bounded_value(s.drop_first(), i32::MAX as int)
    } else {
        bounded_value(s, i32::MAX as int)
    }
}

/// The decimal digit for a number below ten.
pub open spec fn digit_char(n: int) -> char {
    (n + '0' as u32) as u8 as char
}

/// A number in decimal digits, without zeros before it.
pub open spec fn decimal(n: nat) -> Seq<char>
    decreases n,
{
    if n < 10 {
        seq![digit_char(n as int)]
    } else {
        decimal(n / 10).push(digit_char((n % 10) as int))
    }
}

proof fn lemma_value_grows(s: Seq<char>, n: int)
    requires
        0 <= n <= s.len(),
        all_digits(s),
    ensures
        0 <= digits_value(s.take(n)) <= digits_value(s),
    decreases s.len(),
{
    if s.len() > 0 {
        let init = s.drop_last();
        assert(forall|i: int| 0 <= i < init.len() ==> init[i] == s[i]);
        assert(all_digits(init));
        assert(digit(s[s.len() - 1]));
        if n < s.len() {
            lemma_value_grows(init, n);
            assert(init.take(n) == s.take(n));
        } else {
            lemma_value_grows(init, init.len() as int);
            assert(init.take(init.len() as int) == init);
            assert(s.take(n) == s);
        }
    }
}

/// Digits stand for no negative number.
pub proof fn lemma_value_not_negative(s: Seq<char>)
    requires
        all_digits(s),
    ensures
        digits_value(s) >= 0,
{
    lemma_value_grows(s, s.len() as int);
    assert(s.take(s.len() as int) == s);
}

/// The digits of a number stand for that number.
pub proof fn decimal_stands_for_its_number(n: nat)
    ensures
        decimal(n).len() > 0,
        all_digits(decimal(n)),
        digits_value(decimal(n)) == n,
    decreases n,
{
    if n < 10 {
        let s = decimal(n);
        assert(s.drop_last() == Seq::<char>::empty());
        assert(digits_value(Seq::<char>::empty()) == 0);
    } else {
        decimal_stands_for_its_number(n / 10);
        assert(decimal(n).drop_last() == decimal(n / 10));
    }
}

/// A port or a status written in digits is read back as it was.
pub proof fn written_u16_is_read_back(n: u16)
    ensures
        u16_value(decimal(n as nat)) == Some(n as int),
{
    decimal_stands_for_its_number(n as nat);
    assert(digit(decimal(n as nat)[0]));
}

/// The number that `chars[from..]` stands for, if it is not over `max`.
fn bounded_number(chars: &[char], from: usize, max: u32) -> (r: Option<u32>)
    requires
        from <= chars@.len(),
    ensures
        match r {
            Some(n) => bounded_value(chars@.skip(from as int), max as int) == Some(n as int),
            None => bounded_value(chars@.skip(from as int), max as int) is None,
        },
{
    let ghost s = chars@.skip(from as int);
    if from == chars.len() {
        return None;
    }
    let mut value: u64 = 0;
    let mut i: usize = from;
    while i < chars.len()
        invariant
            from <= i <= chars@.len(),
            s == chars@.skip(from as int),
            value <= max,
            value == digits_value(s.take(i - from)),
            forall|j: int| 0 <= j < i - from ==> digit(#[trigger] s[j]),
        decreases chars@.len() - i,
    {
        let c = chars[i];
        assert(s[i - from] == c);
        if c < '0' || '9' < c {
            assert(!digit(s[i - from]));
            return None;
        }
        let d: u64 = c as u64 - '0' as u64;
        proof {
            assert(s.take(i - from + 1).drop_last() == s.take(i - from));
            assert(s.take(i - from + 1).last() == c);
        }
        value = value * 10 + d;
        i += 1;
        if value > max as u64 {
            proof {
                if all_digits(s) {
                    lemma_value_grows(s, i - from);
                }
            }
            return None;
        }
    }
    assert(s.take(i - from) == s);
    Some(value as u32)
}

/// `str::parse` to a `u16`.
pub fn parse_u16(text: &str) -> (r: Option<u16>)
    ensures
        match r {
            Some(n) => u16_value(text@) == Some(n as int),
            None => u16_value(text@) is None,
        },
{
    let chars = chars_of(text);
    assert(chars@.skip(0) == chars@);
    let from: usize = if chars.len() > 0 && chars[0] == '+' {
        assert(chars@.skip(1) == chars@.drop_first());
        1
    } else {
        0
    };
    match bounded_number(&chars, from, u16::MAX as u32) {
        Some(n) => Some(n as u16),
        None => None,
    }
}

/// `str::parse` to an `i32`.
pub fn parse_i32(text: &str) -> (r: Option<i32>)
    ensures
        match r {
            Some(n) => i32_value(text@) == Some(n as int),
            None => i32_value(text@) is None,
        },
{
    let chars = chars_of(text);
    assert(chars@.skip(0) == chars@);
    if chars.len() > 0 && chars[0] == '-' {
        assert(chars@.skip(1) == chars@.drop_first());
        match bounded_number(&chars, 1, 0x8000_0000) {
            Some(n) => Some((0 - n as i64) as i32),
            None => None,
        }
    } else {
        let from: usize = if chars.len() > 0 && chars[0] == '+' {
            assert(chars@.skip(1) == chars@.drop_first());
            1
        } else {
            0
        };
        match bounded_number(&chars, from, i32::MAX as u32) {
            Some(n) => Some(n as i32),
            None => None,
        }
    }
}

/// A number in decimal digits.
pub fn decimal_text(n: u32) -> (r: String)
    ensures
        r@ == decimal(n as nat),
    decreases n,
{
    let mut r = if n < 10 {
        String::new()
    } else {
        decimal_text(n / 10)
    };
    let d: u8 = (n % 10) as u8;
    r.push((d + 48) as char);
    assert(n < 10 ==> r@ == decimal(n as nat));
    r
}

} // verus!
