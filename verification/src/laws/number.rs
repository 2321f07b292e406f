//! Laws of numbers and statuses.
use vstd::prelude::*;

use crate::number;
use crate::status;

verus! {

/// Zeros before digits change nothing of the number that they stand for.
pub proof fn leading_zeros_change_nothing(s: Seq<char>)
    requires
        number::all_digits(s),
    ensures
        number::digits_value(seq!['0'] + s) == number::digits_value(s),
    decreases s.len(),
{
    let t = seq!['0'] + s;
    if s.len() == 0 {
        assert(t.drop_last() == Seq::<char>::empty());
        assert(number::digits_value(Seq::<char>::empty()) == 0);
    } else {
        let init = s.drop_last();
        assert(forall|i: int| 0 <= i < init.len() ==> #[trigger] init[i] == s[i]);
        leading_zeros_change_nothing(init);
        assert(t.drop_last() == seq!['0'] + init);
        assert(t.last() == s.last());
    }
}

/// One more digit makes ten of the number, and adds the digit.
pub proof fn one_more_digit(s: Seq<char>, digit: char)
    requires
        48 <= digit as int <= 57,
    ensures
        number::digits_value(s.push(digit)) == number::digits_value(s) * 10 + (digit as int - 48),
        number::digits_value(Seq::<char>::empty()) == 0,
{
    assert(s.push(digit).drop_last() == s);
}

/// Whether a text is one or more of the characters from `0` to `9`.
pub open spec fn digits_alone(s: Seq<char>) -> bool {
    &&& s.len() > 0
    &&& forall|i: int| 0 <= i < s.len() ==> 48 <= (#[trigger] s[i]) as int <= 57
}

proof fn lemma_digits(s: Seq<char>)
    ensures
        digits_alone(s) <==> s.len() > 0 && number::all_digits(s),
{
    if number::all_digits(s) {
        assert forall|i: int| 0 <= i < s.len() implies 48 <= (#[trigger] s[i]) as int <= 57 by {
            assert(number::digit(s[i]));
        }
    }
    if s.len() > 0 && digits_alone(s) {
        assert forall|i: int| 0 <= i < s.len() implies number::digit(#[trigger] s[i]) by {
            assert(48 <= s[i] as int <= 57);
        }
    }
}

/// A text stands for a port if and only if it is digits, with or without a `+`
/// before them, whose number is not over 65535; it stands for that number.
pub proof fn ports_are_read_from_digits(s: Seq<char>)
    ensures
        digits_alone(s) && number::digits_value(s) <= 65535 ==> number::u16_value(s) == Some(
            number::digits_value(s),
        ) && number::u16_value(seq!['+'] + s) == Some(number::digits_value(s)),
        !digits_alone(s) || number::digits_value(s) > 65535 ==> number::u16_value(seq!['+'] + s)
            is None,
        s.len() == 0 || (s[0] != '+' && (!digits_alone(s) || number::digits_value(s) > 65535))
            ==> number::u16_value(s) is None,
{
    lemma_digits(s);
    assert((seq!['+'] + s).drop_first() == s);
    if digits_alone(s) {
        assert(48 <= s[0] as int <= 57);
    }
}

/// A text stands for a process if and only if it is digits, with or without a
/// sign before them, whose number fits; it stands for that number.
pub proof fn pids_are_read_from_digits(s: Seq<char>)
    ensures
        digits_alone(s) && number::digits_value(s) <= 2147483647 ==> number::i32_value(s) == Some(
            number::digits_value(s),
        ) && number::i32_value(seq!['+'] + s) == Some(number::digits_value(s)),
        digits_alone(s) && number::digits_value(s) <= 2147483648 ==> number::i32_value(
            seq!['-'] + s,
        ) == Some(-number::digits_value(s)),
        !digits_alone(s) ==> number::i32_value(seq!['-'] + s) is None && number::i32_value(
            seq!['+'] + s,
        ) is None,
        s.len() == 0 || (s[0] != '+' && s[0] != '-' && !digits_alone(s)) ==> number::i32_value(s)
            is None,
        digits_alone(s) && number::digits_value(s) > 2147483647 ==> number::i32_value(s) is None
            && number::i32_value(seq!['+'] + s) is None,
        digits_alone(s) && number::digits_value(s) > 2147483648 ==> number::i32_value(
            seq!['-'] + s,
        ) is None,
{
    lemma_digits(s);
    assert((seq!['+'] + s).drop_first() == s);
    assert((seq!['-'] + s).drop_first() == s);
    if digits_alone(s) {
        assert(48 <= s[0] as int <= 57);
    }
}

/// A number written in digits has no zero before it, and stands for itself.
pub proof fn numbers_are_written_in_digits(n: nat)
    ensures
        digits_alone(number::decimal(n)),
        number::digits_value(number::decimal(n)) == n,
        n > 0 ==> number::decimal(n)[0] != '0',
    decreases n,
{
    number::decimal_stands_for_its_number(n);
    lemma_digits(number::decimal(n));
    if n >= 10 {
        numbers_are_written_in_digits(n / 10);
        assert(number::decimal(n)[0] == number::decimal(n / 10)[0]);
    }
}

/// The numbers from 100 to 999 are statuses, those from 200 to 299 successes,
/// and 429 and those from 500 to 599 let another upstream be tried.
pub proof fn statuses_by_number(code: u16)
    ensures
        status::status_code(code) <==> 100 <= code <= 999,
        status::success(code) <==> 200 <= code <= 299,
        status::retriable(code) <==> code == 429 || 500 <= code <= 599,
{
}

} // verus!
