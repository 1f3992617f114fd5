//! Text helpers: lists of text, white space, ASCII case, order and decimals.
use vstd::prelude::*;
use vstd::string::*;

verus! {

/// The contents of a list of strings.
pub open spec fn texts(list: Seq<String>) -> Seq<Seq<char>> {
    Seq::new(list.len(), |i: int| list[i]@)
}

/// The content of an optional string.
pub open spec fn opt_text(value: Option<String>) -> Option<Seq<char>> {
    match value {
        Some(text) => Some(text@),
        None => None,
    }
}

/// Pushing one string extends the contents by one text.
pub proof fn lemma_texts_push(list: Seq<String>, item: String)
    ensures
        texts(list.push(item)) == texts(list).push(item@),
{
    assert(texts(list.push(item)) =~= texts(list).push(item@));
}

/// Whether two strings hold the same text.
pub fn same_text(left: &String, right: &String) -> (same: bool)
    ensures
        same == (left@ == right@),
{
    *left == *right
}

/// Whether a string holds a given text.
pub fn is_text(value: &String, text: &str) -> (same: bool)
    ensures
        same == (value@ == text@),
{
    let other: String = text.to_owned();
    same_text(value, &other)
}

/// Whether two optional strings hold the same text or are both absent.
pub fn same_opt_text(left: &Option<String>, right: &Option<String>) -> (same: bool)
    ensures
        same == (opt_text(*left) == opt_text(*right)),
{
    match (left, right) {
        (Some(a), Some(b)) => same_text(a, b),
        (None, None) => true,
        _ => false,
    }
}

/// A copy of an optional string.
pub fn clone_opt_text(value: &Option<String>) -> (copy: Option<String>)
    ensures
        copy == *value,
{
    match value {
        Some(text) => Some(text.clone()),
        None => None,
    }
}

/// A copy of a list of strings.
pub fn clone_texts(list: &Vec<String>) -> (copy: Vec<String>)
    ensures
        copy@ == list@,
{
    let mut copy: Vec<String> = Vec::new();
    let mut i: usize = 0;
    while i < list.len()
        invariant
            i <= list.len(),
            copy@ == list@.take(i as int),
        decreases list.len() - i,
    {
        copy.push(list[i].clone());
        assert(list@.take(i + 1) == list@.take(i as int).push(list@[i as int]));
        i = i + 1;
    }
    assert(list@.take(list@.len() as int) == list@);
    copy
}

/// The first index at which a list of texts holds a text.
pub open spec fn first_index(list: Seq<Seq<char>>, needle: Seq<char>) -> Option<int>
    decreases list.len(),
{
    if list.len() == 0 {
        None
    } else {
        match first_index(list.drop_last(), needle) {
            Some(i) => Some(i),
            None => if list.last() == needle {
                Some(list.len() - 1)
            } else {
                None
            },
        }
    }
}

/// Whether a list of strings holds a text.
pub fn contains_text(list: &Vec<String>, needle: &String) -> (found: bool)
    ensures
        found == texts(list@).contains(needle@),
{
    let mut i: usize = 0;
    while i < list.len()
        invariant
            i <= list.len(),
            forall|j: int| 0 <= j < i ==> texts(list@)[j] != needle@,
        decreases list.len() - i,
    {
        if same_text(&list[i], needle) {
            assert(texts(list@)[i as int] == needle@);
            return true;
        }
        i = i + 1;
    }
    false
}

/// Whether no text occurs twice in a list of strings.
pub fn distinct_texts(list: &Vec<String>) -> (distinct: bool)
    ensures
        distinct == texts(list@).no_duplicates(),
{
    let mut i: usize = 0;
    while i < list.len()
        invariant
            i <= list.len(),
            forall|a: int, b: int|
                0 <= a < b < i ==> texts(list@)[a] != texts(list@)[b],
        decreases list.len() - i,
    {
        let mut j: usize = 0;
        while j < i
            invariant
                j <= i < list.len(),
                forall|a: int| 0 <= a < j ==> texts(list@)[a] != texts(list@)[i as int],
            decreases i - j,
        {
            if same_text(&list[j], &list[i]) {
                assert(texts(list@)[j as int] == texts(list@)[i as int]);
                return false;
            }
            j = j + 1;
        }
        i = i + 1;
    }
    true
}


/// The characters of Unicode's `White_Space` property.
pub open spec fn white(c: char) -> bool {
    ||| '\u{9}' <= c <= '\u{d}'
    ||| c == ' '
    ||| c == '\u{85}'
    ||| c == '\u{a0}'
    ||| c == '\u{1680}'
    ||| '\u{2000}' <= c <= '\u{200a}'
    ||| c == '\u{2028}'
    ||| c == '\u{2029}'
    ||| c == '\u{202f}'
    ||| c == '\u{205f}'
    ||| c == '\u{3000}'
}

/// Whether a character is white space.
pub fn is_white(c: char) -> (answer: bool)
    ensures
        answer == white(c),
{
    ('\u{9}' <= c && c <= '\u{d}') || c == ' ' || c == '\u{85}' || c == '\u{a0}' || c == '\u{1680}'
        || ('\u{2000}' <= c && c <= '\u{200a}') || c == '\u{2028}' || c == '\u{2029}'
        || c == '\u{202f}' || c == '\u{205f}' || c == '\u{3000}'
}

/// Unicode's control characters, the general category `Cc`.
pub open spec fn control(c: char) -> bool {
    c <= '\u{1f}' || '\u{7f}' <= c <= '\u{9f}'
}

/// Whether a character is a control character.
pub fn is_control(c: char) -> (answer: bool)
    ensures
        answer == control(c),
{
    c <= '\u{1f}' || ('\u{7f}' <= c && c <= '\u{9f}')
}

/// Whether a text holds nothing but white space.
pub open spec fn blank(text: Seq<char>) -> bool {
    forall|i: int| 0 <= i < text.len() ==> white(#[trigger] text[i])
}

/// How many leading characters of a text are white space.
pub open spec fn leading_white(text: Seq<char>) -> nat
    decreases text.len(),
{
    if text.len() == 0 || !white(text[0]) {
        0
    } else {
        1 + leading_white(text.drop_first())
    }
}

/// A text without the white space that ends it.
pub open spec fn trim_end(text: Seq<char>) -> Seq<char>
    decreases text.len(),
{
    if text.len() == 0 || !white(text.last()) {
        text
    } else {
        trim_end(text.drop_last())
    }
}

/// A text without the white space that starts it and the white space that ends it.
pub open spec fn trimmed(text: Seq<char>) -> Seq<char> {
    trim_end(text.skip(leading_white(text) as int))
}

proof fn lemma_leading_white(text: Seq<char>, n: int)
    requires
        0 <= n <= text.len(),
        forall|i: int| 0 <= i < n ==> white(#[trigger] text[i]),
        n == text.len() || !white(text[n]),
    ensures
        leading_white(text) == n,
    decreases text.len(),
{
    if n > 0 {
        assert(white(text[0]));
        let rest = text.drop_first();
        assert forall|i: int| 0 <= i < n - 1 implies white(#[trigger] rest[i]) by {
            assert(rest[i] == text[i + 1]);
        }
        lemma_leading_white(rest, n - 1);
    }
}

proof fn lemma_trim_end(text: Seq<char>, n: int)
    requires
        0 <= n <= text.len(),
        forall|i: int| n <= i < text.len() ==> white(#[trigger] text[i]),
        n == 0 || !white(text[n - 1]),
    ensures
        trim_end(text) == text.take(n),
    decreases text.len(),
{
    if n == text.len() {
        assert(text.take(n) == text);
    } else {
        assert(white(text.last()));
        lemma_trim_end(text.drop_last(), n);
        assert(text.drop_last().take(n) == text.take(n));
    }
}

/// What trimming leaves is empty exactly when the text is blank.
pub proof fn law_blank_texts_trim_to_nothing(text: Seq<char>)
    ensures
        trimmed(text).len() == 0 <==> blank(text),
    decreases text.len(),
{
    lemma_leading_white_bounds(text);
    let n = leading_white(text) as int;
    let rest = text.skip(n);
    lemma_trim_end_empty(rest);
    if blank(text) {
        assert forall|i: int| 0 <= i < rest.len() implies white(#[trigger] rest[i]) by {
            assert(rest[i] == text[i + n]);
        }
    }
    if blank(rest) {
        assert forall|i: int| 0 <= i < text.len() implies white(#[trigger] text[i]) by {
            if i >= n {
                assert(text[i] == rest[i - n]);
            }
        }
    }
}

proof fn lemma_leading_white_bounds(text: Seq<char>)
    ensures
        leading_white(text) <= text.len(),
        forall|i: int| 0 <= i < leading_white(text) ==> white(#[trigger] text[i]),
    decreases text.len(),
{
    if text.len() > 0 && white(text[0]) {
        let rest = text.drop_first();
        lemma_leading_white_bounds(rest);
        assert forall|i: int| 0 <= i < leading_white(text) implies white(#[trigger] text[i]) by {
            if i > 0 {
                assert(text[i] == rest[i - 1]);
            }
        }
    }
}

proof fn lemma_trim_end_empty(text: Seq<char>)
    ensures
        trim_end(text).len() == 0 <==> blank(text),
    decreases text.len(),
{
    if text.len() > 0 {
        if white(text.last()) {
            lemma_trim_end_empty(text.drop_last());
            if blank(text.drop_last()) {
                assert forall|i: int| 0 <= i < text.len() implies white(#[trigger] text[i]) by {
                    if i < text.len() - 1 {
                        assert(text[i] == text.drop_last()[i]);
                    }
                }
            }
            if blank(text) {
                assert forall|i: int| 0 <= i < text.drop_last().len() implies white(
                    #[trigger] text.drop_last()[i],
                ) by {
                    assert(text[i] == text.drop_last()[i]);
                }
            }
        } else {
            assert(!white(text[text.len() - 1]));
        }
    }
}

/// A copy of a text without the white space at its two ends.
pub fn trim_text(text: &String) -> (kept: String)
    ensures
        kept@ == trimmed(text@),
{
    let len: usize = text.as_str().unicode_len();
    let mut start: usize = 0;
    while start < len && is_white(text.as_str().get_char(start))
        invariant
            start <= len,
            len == text@.len(),
            forall|i: int| 0 <= i < start ==> white(#[trigger] text@[i]),
        ensures
            start <= len,
            len == text@.len(),
            forall|i: int| 0 <= i < start ==> white(#[trigger] text@[i]),
            start == len || !white(text@[start as int]),
        decreases len - start,
    {
        start = start + 1;
    }
    let mut end: usize = len;
    while start < end && is_white(text.as_str().get_char(end - 1))
        invariant
            start <= end <= len,
            len == text@.len(),
            forall|i: int| end <= i < len ==> white(#[trigger] text@[i]),
        ensures
            start <= end <= len,
            len == text@.len(),
            forall|i: int| end <= i < len ==> white(#[trigger] text@[i]),
            start == end || !white(text@[end - 1]),
        decreases end - start,
    {
        end = end - 1;
    }
    proof {
        lemma_leading_white(text@, start as int);
        let rest = text@.skip(start as int);
        assert forall|i: int| end - start <= i < rest.len() implies white(#[trigger] rest[i]) by {
            assert(rest[i] == text@[i + start]);
        }
        if end > start {
            assert(rest[end - start - 1] == text@[end - 1]);
        }
        lemma_trim_end(rest, end - start);
        assert(rest.take(end - start) == text@.subrange(start as int, end as int));
    }
    text.as_str().substring_char(start, end).to_owned()
}

/// Whether a text holds nothing but white space.
pub fn is_blank(text: &String) -> (answer: bool)
    ensures
        answer == blank(text@),
{
    let len: usize = text.as_str().unicode_len();
    let mut i: usize = 0;
    while i < len
        invariant
            i <= len,
            len == text@.len(),
            forall|j: int| 0 <= j < i ==> white(#[trigger] text@[j]),
        decreases len - i,
    {
        if !is_white(text.as_str().get_char(i)) {
            assert(!white(text@[i as int]));
            return false;
        }
        i = i + 1;
    }
    true
}

/// Whether some text of a list is blank.
pub open spec fn some_blank(list: Seq<Seq<char>>) -> bool {
    exists|i: int| 0 <= i < list.len() && blank(#[trigger] list[i])
}

/// Whether some string of a list is blank.
pub fn any_blank(list: &Vec<String>) -> (answer: bool)
    ensures
        answer == some_blank(texts(list@)),
{
    let mut i: usize = 0;
    while i < list.len()
        invariant
            i <= list.len(),
            forall|j: int| 0 <= j < i ==> !blank(#[trigger] texts(list@)[j]),
        decreases list.len() - i,
    {
        if is_blank(&list[i]) {
            assert(blank(texts(list@)[i as int]));
            return true;
        }
        i = i + 1;
    }
    false
}


/// The first index is the one before which the text does not occur.
pub proof fn lemma_first_index(list: Seq<Seq<char>>, needle: Seq<char>, i: int)
    requires
        0 <= i < list.len(),
        list[i] == needle,
        forall|j: int| 0 <= j < i ==> list[j] != needle,
    ensures
        first_index(list, needle) == Some(i),
    decreases list.len(),
{
    if i == list.len() - 1 {
        lemma_first_index_absent(list.drop_last(), needle);
    } else {
        lemma_first_index(list.drop_last(), needle, i);
    }
}

/// A text that does not occur has no first index.
pub proof fn lemma_first_index_absent(list: Seq<Seq<char>>, needle: Seq<char>)
    requires
        forall|j: int| 0 <= j < list.len() ==> list[j] != needle,
    ensures
        first_index(list, needle) is None,
    decreases list.len(),
{
    if list.len() > 0 {
        assert(list.last() == list[list.len() - 1]);
        lemma_first_index_absent(list.drop_last(), needle);
    }
}

/// A text occurs exactly when it has a first index, and there it stands.
pub proof fn lemma_first_index_found(list: Seq<Seq<char>>, needle: Seq<char>)
    ensures
        first_index(list, needle) is Some <==> list.contains(needle),
        first_index(list, needle) is Some ==> {
            let i = first_index(list, needle)->0;
            0 <= i < list.len() && list[i] == needle && forall|j: int|
                0 <= j < i ==> list[j] != needle
        },
    decreases list.len(),
{
    if list.len() > 0 {
        let front = list.drop_last();
        lemma_first_index_found(front, needle);
        if list.contains(needle) && first_index(front, needle) is None {
            let i = choose|i: int| 0 <= i < list.len() && list[i] == needle;
            if i < front.len() {
                assert(front[i] == needle);
            }
        }
        if list.last() == needle {
            assert(list[list.len() - 1] == needle);
        }
        if first_index(front, needle) is Some {
            assert(list[first_index(front, needle)->0] == needle);
            assert forall|j: int| 0 <= j < first_index(list, needle)->0 implies list[j]
                != needle by {
                assert(list[j] == front[j]);
            }
        } else {
            assert forall|j: int| 0 <= j < front.len() implies list[j] != needle by {
                assert(list[j] == front[j]);
                assert(front.contains(list[j]));
            }
        }
    }
}


/// The last index at which a list of texts holds a text.
pub open spec fn last_index(list: Seq<Seq<char>>, needle: Seq<char>) -> Option<int>
    decreases list.len(),
{
    if list.len() == 0 {
        None
    } else if list.last() == needle {
        Some(list.len() - 1)
    } else {
        last_index(list.drop_last(), needle)
    }
}

/// A text occurs exactly when it has a last index, and there it stands.
pub proof fn lemma_last_index_found(list: Seq<Seq<char>>, needle: Seq<char>)
    ensures
        last_index(list, needle) is Some <==> list.contains(needle),
        last_index(list, needle) is Some ==> {
            let i = last_index(list, needle)->0;
            0 <= i < list.len() && list[i] == needle && forall|j: int|
                i < j < list.len() ==> list[j] != needle
        },
    decreases list.len(),
{
    if list.len() > 0 {
        let front = list.drop_last();
        lemma_last_index_found(front, needle);
        assert(list[list.len() - 1] == list.last());
        if list.last() != needle {
            if list.contains(needle) {
                let i = choose|i: int| 0 <= i < list.len() && list[i] == needle;
                assert(front[i] == needle);
            }
            if front.contains(needle) {
                let i = choose|i: int| 0 <= i < front.len() && front[i] == needle;
                assert(list[i] == needle);
            }
            if last_index(front, needle) is Some {
                let i = last_index(front, needle)->0;
                assert forall|j: int| i < j < list.len() implies list[j] != needle by {
                    if j < front.len() {
                        assert(list[j] == front[j]);
                    }
                }
            }
        }
    }
}

/// The last index is the one after which the text does not occur.
pub proof fn lemma_last_index(list: Seq<Seq<char>>, needle: Seq<char>, i: int)
    requires
        0 <= i < list.len(),
        list[i] == needle,
        forall|j: int| i < j < list.len() ==> list[j] != needle,
    ensures
        last_index(list, needle) == Some(i),
{
    lemma_last_index_found(list, needle);
    assert(list.contains(needle));
    let k = last_index(list, needle)->0;
    if k < i {
        assert(list[i] != needle);
    } else if i < k {
        assert(list[k] != needle);
    }
}

/// The number of characters of a text before its first NUL, which is the length
/// that the database counts.
pub open spec fn stored_length(text: Seq<char>) -> nat
    decreases text.len(),
{
    if text.len() == 0 || text[0] == '\0' {
        0
    } else {
        1 + stored_length(text.drop_first())
    }
}

/// The number of characters of a text before its first NUL.
pub fn length_before_nul(text: &String) -> (length: usize)
    ensures
        length == stored_length(text@),
        length <= text@.len(),
{
    let len: usize = text.as_str().unicode_len();
    let mut i: usize = 0;
    assert(text@.skip(0) =~= text@);
    while i < len && text.as_str().get_char(i) != '\0'
        invariant
            i <= len,
            len == text@.len(),
            stored_length(text@) == i + stored_length(text@.skip(i as int)),
        decreases len - i,
    {
        assert(text@.skip(i as int).drop_first() =~= text@.skip(i + 1));
        i = i + 1;
    }
    i
}

/// Whether two lists hold the same texts in the same order.
pub fn same_texts(left: &Vec<String>, right: &Vec<String>) -> (same: bool)
    ensures
        same == (texts(left@) == texts(right@)),
{
    if left.len() != right.len() {
        assert(texts(left@).len() != texts(right@).len());
        return false;
    }
    let mut i: usize = 0;
    while i < left.len()
        invariant
            i <= left.len(),
            left.len() == right.len(),
            forall|j: int| 0 <= j < i ==> texts(left@)[j] == texts(right@)[j],
        decreases left.len() - i,
    {
        assert(texts(left@)[i as int] == left@[i as int]@);
        assert(texts(right@)[i as int] == right@[i as int]@);
        if !same_text(&left[i], &right[i]) {
            return false;
        }
        i = i + 1;
    }
    assert(texts(left@) =~= texts(right@));
    true
}

/// [`String::push`]. Claimed of it: it puts the character behind the text.
pub assume_specification[ String::push ](text: &mut String, c: char)
    ensures
        final(text)@ == old(text)@.push(c),
;

/// A trimmed text is what stands between the first and the last character that is not
/// white: nothing else is lost, and neither end is white.
pub proof fn law_trimming_takes_white_ends(text: Seq<char>)
    ensures
        exists|a: int, b: int|
            0 <= a <= b <= text.len() && trimmed(text) == #[trigger] text.subrange(a, b) && (
            forall|i: int| 0 <= i < a ==> white(#[trigger] text[i])) && (forall|i: int|
                b <= i < text.len() ==> white(#[trigger] text[i])) && (a < b ==> !white(text[a])
                && !white(text[b - 1])),
{
    let a = leading_white(text) as int;
    lemma_leading_white_bounds(text);
    lemma_leading_stops(text);
    let rest = text.skip(a);
    let n = lemma_trim_end_stops(rest);
    let b = a + n;
    assert(trimmed(text) =~= text.subrange(a, b));
    assert forall|i: int| b <= i < text.len() implies white(#[trigger] text[i]) by {
        assert(rest[i - a] == text[i]);
    }
    if a < b {
        assert(rest[n - 1] == text[b - 1]);
    }
    assert(trimmed(text) == text.subrange(a, b));
}

proof fn lemma_leading_stops(text: Seq<char>)
    ensures
        leading_white(text) < text.len() ==> !white(text[leading_white(text) as int]),
    decreases text.len(),
{
    if text.len() > 0 && white(text[0]) {
        lemma_leading_stops(text.drop_first());
        lemma_leading_white_bounds(text.drop_first());
    }
}

proof fn lemma_trim_end_stops(text: Seq<char>) -> (n: int)
    ensures
        0 <= n <= text.len(),
        trim_end(text) == text.take(n),
        forall|i: int| n <= i < text.len() ==> white(#[trigger] text[i]),
        n > 0 ==> !white(text[n - 1]),
    decreases text.len(),
{
    if text.len() == 0 || !white(text.last()) {
        assert(text.take(text.len() as int) =~= text);
        text.len() as int
    } else {
        let front = text.drop_last();
        let n = lemma_trim_end_stops(front);
        assert(front.take(n) =~= text.take(n));
        assert forall|i: int| n <= i < text.len() implies white(#[trigger] text[i]) by {
            if i < front.len() {
                assert(front[i] == text[i]);
            }
        }
        if n > 0 {
            assert(front[n - 1] == text[n - 1]);
        }
        n
    }
}

/// The control characters are those below the space and those from the delete character
/// to the end of the second control block.
pub proof fn law_control_characters_stand_in_two_blocks(c: char, answer: bool)
    requires
        call_ensures(is_control, (c,), answer),
    ensures
        (c as int) < 32 ==> answer,
        32 <= (c as int) < 127 ==> !answer,
        127 <= (c as int) < 160 ==> answer,
        160 <= (c as int) ==> !answer,
{
}

} // verus!
