//! Bounds of capture time: civil times to the second, without an offset.
use crate::numeral::{digits_value, is_digit};
use vstd::prelude::*;
use vstd::string::*;

verus! {

/// A capture time that a query starts at or ends before.
#[derive(Clone, Debug, PartialEq, Eq)]
pub struct CaptureTimeBound {
    pub text: String,
}

/// Why a text is no bound of capture time.
#[derive(Clone, Copy, Debug, PartialEq, Eq, Structural)]
pub struct InvalidCaptureTimeBound;

/// Whether a year has a 29th of February.
pub open spec fn leap_year(year: nat) -> bool {
    year % 4 == 0 && (year % 100 != 0 || year % 400 == 0)
}

/// How many days a month has.
pub open spec fn days_in(year: nat, month: nat) -> nat {
    if month == 2 {
        if leap_year(year) {
            29
        } else {
            28
        }
    } else if month == 4 || month == 6 || month == 9 || month == 11 {
        30
    } else {
        31
    }
}

/// Which separator a bound holds at an index, if any.
pub open spec fn bound_separator(index: int) -> Option<char> {
    if index == 4 || index == 7 {
        Some('-')
    } else if index == 10 {
        Some('T')
    } else if index == 13 || index == 16 {
        Some(':')
    } else {
        None
    }
}

/// Whether a text has the form `YYYY-MM-DDTHH:MM:SS`.
pub open spec fn bound_form(text: Seq<char>) -> bool {
    text.len() == 19 && forall|i: int|
        0 <= i < 19 ==> match bound_separator(i) {
            Some(separator) => #[trigger] text[i] == separator,
            None => is_digit(text[i]),
        }
}

/// The number that a run of digits of a text writes.
pub open spec fn number_at(text: Seq<char>, from: int, to: int) -> nat {
    digits_value(text.subrange(from, to))
}

/// Whether a text is a bound of capture time: its form, a year from 1, and a date
/// and a time that the calendar has.
pub open spec fn capture_bound(text: Seq<char>) -> bool {
    &&& bound_form(text)
    &&& number_at(text, 0, 4) >= 1
    &&& 1 <= number_at(text, 5, 7) <= 12
    &&& 1 <= number_at(text, 8, 10) <= days_in(number_at(text, 0, 4), number_at(text, 5, 7))
    &&& number_at(text, 11, 13) < 24
    &&& number_at(text, 14, 16) < 60
    &&& number_at(text, 17, 19) < 60
}

fn has_form(text: &String) -> (answer: bool)
    ensures
        answer == bound_form(text@),
{
    if text.as_str().unicode_len() != 19 {
        return false;
    }
    let mut i: usize = 0;
    while i < 19
        invariant
            i <= 19,
            text@.len() == 19,
            forall|j: int|
                0 <= j < i ==> match bound_separator(j) {
                    Some(separator) => #[trigger] text@[j] == separator,
                    None => is_digit(text@[j]),
                },
        decreases 19 - i,
    {
        let c: char = text.as_str().get_char(i);
        let fits: bool = if i == 4 || i == 7 {
            c == '-'
        } else if i == 10 {
            c == 'T'
        } else if i == 13 || i == 16 {
            c == ':'
        } else {
            '0' <= c && c <= '9'
        };
        if !fits {
            assert(!(match bound_separator(i as int) {
                Some(separator) => text@[i as int] == separator,
                None => is_digit(text@[i as int]),
            }));
            return false;
        }
        i = i + 1;
    }
    true
}

fn read_number(text: &String, from: usize, to: usize) -> (number: u32)
    requires
        from <= to <= text@.len(),
        to - from <= 4,
        forall|i: int| from <= i < to ==> is_digit(#[trigger] text@[i]),
    ensures
        number == number_at(text@, from as int, to as int),
        number < 10_000,
{
    let mut number: u32 = 0;
    let mut i: usize = from;
    assert(text@.subrange(from as int, from as int) =~= Seq::<char>::empty());
    while i < to
        invariant
            from <= i <= to <= text@.len(),
            to - from <= 4,
            forall|j: int| from <= j < to ==> is_digit(#[trigger] text@[j]),
            number == number_at(text@, from as int, i as int),
            i - from == 0 ==> number < 1,
            i - from == 1 ==> number < 10,
            i - from == 2 ==> number < 100,
            i - from == 3 ==> number < 1000,
            i - from == 4 ==> number < 10_000,
        decreases to - i,
    {
        let c: char = text.as_str().get_char(i);
        assert(is_digit(text@[i as int]));
        let ghost taken = text@.subrange(from as int, i + 1);
        assert(taken.drop_last() =~= text@.subrange(from as int, i as int));
        assert(taken.last() == c);
        number = number * 10 + (c as u32 - '0' as u32);
        i = i + 1;
    }
    number
}

impl CaptureTimeBound {
    /// Reads a bound; an offset, a date or a time that the calendar does not have
    /// is refused.
    pub fn parse(value: &str) -> (result: Result<CaptureTimeBound, InvalidCaptureTimeBound>)
        ensures
            result is Ok <==> capture_bound(value@),
            result is Ok ==> result->Ok_0.text@ == value@,
    {
        let text: String = value.to_owned();
        if !has_form(&text) {
            return Err(InvalidCaptureTimeBound);
        }
        proof {
            assert forall|i: int| 0 <= i < 19 && bound_separator(i) is None implies is_digit(
                #[trigger] text@[i],
            ) by {}
        }
        let year: u32 = read_number(&text, 0, 4);
        let month: u32 = read_number(&text, 5, 7);
        let day: u32 = read_number(&text, 8, 10);
        let hour: u32 = read_number(&text, 11, 13);
        let minute: u32 = read_number(&text, 14, 16);
        let second: u32 = read_number(&text, 17, 19);
        if year < 1 || month < 1 || month > 12 {
            return Err(InvalidCaptureTimeBound);
        }
        let leap: bool = year % 4 == 0 && (year % 100 != 0 || year % 400 == 0);
        let days: u32 = if month == 2 {
            if leap {
                29
            } else {
                28
            }
        } else if month == 4 || month == 6 || month == 9 || month == 11 {
            30
        } else {
            31
        };
        if day < 1 || day > days || hour >= 24 || minute >= 60 || second >= 60 {
            return Err(InvalidCaptureTimeBound);
        }
        Ok(CaptureTimeBound { text })
    }
}

proof fn lemma_two_digits(text: Seq<char>, from: int)
    requires
        0 <= from,
        from + 2 <= text.len(),
        is_digit(text[from]),
        is_digit(text[from + 1]),
    ensures
        number_at(text, from, from + 2) == 10 * ((text[from] as int) - 48) + ((text[from
            + 1] as int) - 48),
{
    let pair = text.subrange(from, from + 2);
    assert(pair.drop_last().drop_last() =~= Seq::<char>::empty());
    assert(pair.drop_last().last() == text[from]);
    assert(pair.last() == text[from + 1]);
    assert(digits_value(pair.drop_last().drop_last()) == 0);
    assert(digits_value(pair.drop_last()) == ((text[from] as int) - 48));
}

proof fn lemma_four_digits(text: Seq<char>)
    requires
        4 <= text.len(),
        is_digit(text[0]),
        is_digit(text[1]),
        is_digit(text[2]),
        is_digit(text[3]),
    ensures
        number_at(text, 0, 4) == 1000 * ((text[0] as int) - 48) + 100 * ((text[1] as int) - 48) + 10
            * ((text[2] as int) - 48) + ((text[3] as int) - 48),
{
    let year = text.subrange(0, 4);
    lemma_two_digits(text, 0);
    assert(year.drop_last().drop_last() =~= text.subrange(0, 2));
    assert(year.drop_last().last() == text[2]);
    assert(year.last() == text[3]);
    assert(digits_value(year.drop_last()) == 10 * number_at(text, 0, 2) + ((text[2] as int) - 48));
}

/// A capture time that bounds a query is a day of the calendar and a time of that day,
/// each of its numbers written in full; it is kept as it was written.
pub proof fn law_bounds_are_times_of_the_calendar(
    value: &str,
    result: Result<CaptureTimeBound, InvalidCaptureTimeBound>,
)
    requires
        call_ensures(CaptureTimeBound::parse, (value,), result),
    ensures
        result matches Ok(bound) ==> bound.text@ == value@,
        ({
            let text = value@;
            let digit = |i: int| (text[i] as int) - 48;
            let year = 1000 * digit(0) + 100 * digit(1) + 10 * digit(2) + digit(3);
            let month = 10 * digit(5) + digit(6);
            let day = 10 * digit(8) + digit(9);
            result is Ok <==> {
                &&& text.len() == 19
                &&& text[4] == '-' && text[7] == '-' && text[10] == 'T' && text[13] == ':'
                    && text[16] == ':'
                &&& forall|i: int|
                    0 <= i < 19 && i != 4 && i != 7 && i != 10 && i != 13 && i != 16 ==> '0'
                        <= #[trigger] text[i] <= '9'
                &&& 1 <= year
                &&& 1 <= month <= 12
                &&& 1 <= day <= 31
                &&& month == 4 || month == 6 || month == 9 || month == 11 ==> day <= 30
                &&& month == 2 ==> day <= 29
                &&& month == 2 && day == 29 ==> year % 4 == 0
                &&& month == 2 && day == 29 && year % 100 == 0 ==> year % 400 == 0
                &&& 10 * digit(11) + digit(12) <= 23
                &&& 10 * digit(14) + digit(15) <= 59
                &&& 10 * digit(17) + digit(18) <= 59
            }
        }),
{
    let text = value@;
    if text.len() == 19 && (forall|i: int|
        0 <= i < 19 && i != 4 && i != 7 && i != 10 && i != 13 && i != 16 ==> '0'
            <= #[trigger] text[i] <= '9') {
        lemma_four_digits(text);
        lemma_two_digits(text, 5);
        lemma_two_digits(text, 8);
        lemma_two_digits(text, 11);
        lemma_two_digits(text, 14);
        lemma_two_digits(text, 17);
    }
}

} // verus!
