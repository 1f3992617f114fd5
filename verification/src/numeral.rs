//! Decimal numerals and ASCII letters.
use vstd::prelude::*;
use vstd::string::*;

verus! {

/// The character that writes a decimal digit.
pub open spec fn digit(d: nat) -> char
    recommends
        d < 10,
{
    (('0' as nat) + d) as char
}

/// Whether a character is a decimal digit.
pub open spec fn is_digit(c: char) -> bool {
    '0' <= c <= '9'
}

/// The numeral of a number, without leading zeros.
pub open spec fn decimal(n: nat) -> Seq<char>
    decreases n,
{
    if n < 10 {
        seq![digit(n)]
    } else {
        decimal(n / 10).push(digit(n % 10))
    }
}

/// The numeral of a signed number.
pub open spec fn signed_decimal(n: int) -> Seq<char> {
    if n < 0 {
        seq!['-'] + decimal((-n) as nat)
    } else {
        decimal(n as nat)
    }
}

/// The number that a run of digits writes.
pub open spec fn digits_value(text: Seq<char>) -> nat
    decreases text.len(),
{
    if text.len() == 0 {
        0
    } else {
        digits_value(text.drop_last()) * 10 + ((text.last() as nat) - ('0' as nat)) as nat
    }
}

/// Whether a text is a run of at least one digit.
pub open spec fn all_digits(text: Seq<char>) -> bool {
    text.len() > 0 && forall|i: int| 0 <= i < text.len() ==> is_digit(#[trigger] text[i])
}

/// Reading back a numeral gives the number it was written for.
pub proof fn law_decimal_reads_back(n: nat)
    ensures
        all_digits(decimal(n)),
        digits_value(decimal(n)) == n,
    decreases n,
{
    if n < 10 {
        let text = seq![digit(n)];
        assert(text.drop_last() =~= Seq::<char>::empty());
        assert(digits_value(text.drop_last()) == 0);
        assert(text.last() == digit(n));
    } else {
        law_decimal_reads_back(n / 10);
        let head = decimal(n / 10);
        let text = decimal(n);
        assert(text.drop_last() =~= head);
        assert forall|i: int| 0 <= i < text.len() implies is_digit(#[trigger] text[i]) by {
            if i < head.len() {
                assert(text[i] == head[i]);
            }
        }
    }
}

/// Two numbers with the same numeral are the same number.
pub proof fn law_decimal_injective(a: nat, b: nat)
    requires
        decimal(a) == decimal(b),
    ensures
        a == b,
{
    law_decimal_reads_back(a);
    law_decimal_reads_back(b);
}

fn digit_text(d: u64) -> (text: String)
    requires
        d < 10,
    ensures
        text@ == seq![digit(d as nat)],
{
    proof {
        reveal_strlit("0");
        reveal_strlit("1");
        reveal_strlit("2");
        reveal_strlit("3");
        reveal_strlit("4");
        reveal_strlit("5");
        reveal_strlit("6");
        reveal_strlit("7");
        reveal_strlit("8");
        reveal_strlit("9");
    }
    let text: &str = match d {
        0 => "0",
        1 => "1",
        2 => "2",
        3 => "3",
        4 => "4",
        5 => "5",
        6 => "6",
        7 => "7",
        8 => "8",
        _ => "9",
    };
    assert(text@ =~= seq![digit(d as nat)]);
    text.to_owned()
}

/// The numeral of a number.
pub fn decimal_text(n: u64) -> (text: String)
    ensures
        text@ == decimal(n as nat),
    decreases n,
{
    if n < 10 {
        digit_text(n)
    } else {
        let mut text: String = decimal_text(n / 10);
        let last: String = digit_text(n % 10);
        text.append(last.as_str());
        assert(text@ =~= decimal(n as nat));
        text
    }
}

/// The numeral of a signed number.
pub fn signed_decimal_text(n: i64) -> (text: String)
    ensures
        text@ == signed_decimal(n as int),
{
    if n < 0 {
        let magnitude: u64 = (-(n + 1)) as u64 + 1;
        let mut text: String = "-".to_owned();
        proof {
            reveal_strlit("-");
            assert("-"@ =~= seq!['-']);
        }
        let digits: String = decimal_text(magnitude);
        text.append(digits.as_str());
        text
    } else {
        decimal_text(n as u64)
    }
}

/// The signed number of 64 bits that a text writes: an optional sign, at least
/// one digit, and a value in range.
pub open spec fn read_i64(text: Seq<char>) -> Option<int> {
    let signed = text.len() > 0 && (text[0] == '-' || text[0] == '+');
    let digits = if signed {
        text.skip(1)
    } else {
        text
    };
    let value = if text.len() > 0 && text[0] == '-' {
        -(digits_value(digits) as int)
    } else {
        digits_value(digits) as int
    };
    if all_digits(digits) && i64::MIN <= value <= i64::MAX {
        Some(value)
    } else {
        None
    }
}

proof fn lemma_digits_value_grows(text: Seq<char>, n: int)
    requires
        0 <= n <= text.len(),
    ensures
        digits_value(text.take(n)) <= digits_value(text),
    decreases text.len(),
{
    if n < text.len() {
        lemma_digits_value_grows(text.drop_last(), n);
        assert(text.drop_last().take(n) =~= text.take(n));
    } else {
        assert(text.take(n) =~= text);
    }
}

/// Reads a signed number of 64 bits.
pub fn parse_i64(text: &String) -> (value: Option<i64>)
    ensures
        value is Some <==> read_i64(text@) is Some,
        value is Some ==> value->0 == read_i64(text@)->0,
{
    let len: usize = text.as_str().unicode_len();
    if len == 0 {
        return None;
    }
    let first: char = text.as_str().get_char(0);
    let signed: bool = first == '-' || first == '+';
    let negative: bool = first == '-';
    let start: usize = if signed { 1 } else { 0 };
    if start == len {
        return None;
    }
    let ghost digits = if signed {
        text@.skip(1)
    } else {
        text@
    };
    let mut total: i128 = 0;
    let mut i: usize = start;
    while i < len
        invariant
            start <= i <= len,
            start <= 1,
            len == text@.len(),
            digits.len() == len - start,
            forall|j: int| 0 <= j < digits.len() ==> digits[j] == text@[j + start],
            forall|j: int| 0 <= j < i - start ==> is_digit(#[trigger] digits[j]),
            total == digits_value(digits.take(i - start)),
            total <= 0x8000_0000_0000_0000,
            signed == (text@.len() > 0 && (text@[0] == '-' || text@[0] == '+')),
            negative == (text@[0] == '-'),
            digits == if signed { text@.skip(1) } else { text@ },
        decreases len - i,
    {
        let c: char = text.as_str().get_char(i);
        assert(c == digits[i - start]);
        if !('0' <= c && c <= '9') {
            assert(!is_digit(digits[i - start]));
            return None;
        }
        let next: i128 = total * 10 + (c as i128 - '0' as i128);
        proof {
            let taken = digits.take(i - start + 1);
            assert(taken.drop_last() =~= digits.take(i - start));
            assert(taken.last() == c);
            lemma_digits_value_grows(digits, i - start + 1);
        }
        if next > 0x8000_0000_0000_0000 {
            return None;
        }
        total = next;
        i = i + 1;
    }
    assert(digits.take(len - start) =~= digits);
    if negative {
        Some((-total) as i64)
    } else if total <= 0x7fff_ffff_ffff_ffff {
        Some(total as i64)
    } else {
        None
    }
}

/// A signed number reads back from its numeral.
pub proof fn law_signed_decimal_reads_back(n: int)
    requires
        i64::MIN <= n <= i64::MAX,
    ensures
        read_i64(signed_decimal(n)) == Some(n),
{
    let magnitude = if n < 0 {
        (-n) as nat
    } else {
        n as nat
    };
    law_decimal_reads_back(magnitude);
    let text = signed_decimal(n);
    if n < 0 {
        assert(text.skip(1) =~= decimal(magnitude));
    } else {
        assert(is_digit(text[0]));
    }
}

/// The lower case of an ASCII letter; every other character is its own.
pub open spec fn ascii_lower(c: char) -> char {
    if 'A' <= c <= 'Z' {
        ((c as nat) + 32) as char
    } else {
        c
    }
}

/// A text with its ASCII letters in lower case.
pub open spec fn folded(text: Seq<char>) -> Seq<char> {
    Seq::new(text.len(), |i: int| ascii_lower(text[i]))
}

/// The lower case of an ASCII letter; every other character is its own.
pub fn lower_char(c: char) -> (lower: char)
    ensures
        lower == ascii_lower(c),
{
    if 'A' <= c && c <= 'Z' {
        ((c as u8) + 32) as char
    } else {
        c
    }
}

/// Whether two names are the same when ASCII case is ignored.
pub fn same_name(left: &String, right: &String) -> (same: bool)
    ensures
        same == (folded(left@) == folded(right@)),
{
    let len: usize = left.as_str().unicode_len();
    if len != right.as_str().unicode_len() {
        assert(folded(left@).len() != folded(right@).len());
        return false;
    }
    let mut i: usize = 0;
    while i < len
        invariant
            i <= len,
            len == left@.len(),
            len == right@.len(),
            forall|j: int| 0 <= j < i ==> folded(left@)[j] == folded(right@)[j],
        decreases len - i,
    {
        if lower_char(left.as_str().get_char(i)) != lower_char(right.as_str().get_char(i)) {
            assert(folded(left@)[i as int] != folded(right@)[i as int]);
            return false;
        }
        i = i + 1;
    }
    assert(folded(left@) =~= folded(right@));
    true
}

/// Only the capital letters of ASCII have another lower-case letter, which is the one
/// of the same place in the alphabet.
pub proof fn law_capitals_are_lowered(c: char, lower: char)
    requires
        call_ensures(lower_char, (c,), lower),
    ensures
        'A' <= c <= 'Z' ==> 'a' <= lower <= 'z' && (lower as int) - 97 == (c as int) - 65,
        c < 'A' || 'Z' < c ==> lower == c,
{
}

} // verus!
