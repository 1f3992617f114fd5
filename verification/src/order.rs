//! The order of texts by their code points, which is the order of their bytes,
//! and sets of texts that are kept in it.
use crate::text::texts;
use vstd::prelude::*;
use vstd::string::*;

verus! {

/// Whether a text comes before another one.
pub open spec fn text_less(left: Seq<char>, right: Seq<char>) -> bool
    decreases right.len(),
{
    if right.len() == 0 {
        false
    } else if left.len() == 0 {
        true
    } else if left[0] != right[0] {
        left[0] < right[0]
    } else {
        text_less(left.drop_first(), right.drop_first())
    }
}

/// No text comes before itself.
pub proof fn law_order_is_irreflexive(text: Seq<char>)
    ensures
        !text_less(text, text),
    decreases text.len(),
{
    if text.len() > 0 {
        law_order_is_irreflexive(text.drop_first());
    }
}

/// The order of texts is transitive.
pub proof fn law_order_is_transitive(a: Seq<char>, b: Seq<char>, c: Seq<char>)
    requires
        text_less(a, b),
        text_less(b, c),
    ensures
        text_less(a, c),
    decreases a.len(),
{
    if a.len() > 0 && a[0] == b[0] && b[0] == c[0] {
        law_order_is_transitive(a.drop_first(), b.drop_first(), c.drop_first());
    }
}

/// Of two different texts one comes before the other.
pub proof fn law_order_is_total(a: Seq<char>, b: Seq<char>)
    ensures
        a == b || text_less(a, b) || text_less(b, a),
    decreases a.len(),
{
    if a.len() == 0 && b.len() == 0 {
        assert(a =~= b);
    } else if a.len() > 0 && b.len() > 0 && a[0] == b[0] {
        law_order_is_total(a.drop_first(), b.drop_first());
        if a.drop_first() == b.drop_first() {
            assert(a =~= seq![a[0]] + a.drop_first());
            assert(b =~= seq![b[0]] + b.drop_first());
        }
    }
}

/// Of two texts at most one comes before the other.
pub proof fn law_order_is_asymmetric(a: Seq<char>, b: Seq<char>)
    requires
        text_less(a, b),
    ensures
        !text_less(b, a),
{
    if text_less(b, a) {
        law_order_is_transitive(a, b, a);
        law_order_is_irreflexive(a);
    }
}

proof fn lemma_less_after_prefix(left: Seq<char>, right: Seq<char>, n: int)
    requires
        0 <= n <= left.len(),
        n <= right.len(),
        forall|i: int| 0 <= i < n ==> left[i] == right[i],
    ensures
        n == right.len() ==> !text_less(left, right),
        n < right.len() && n == left.len() ==> text_less(left, right),
        n < right.len() && n < left.len() && left[n] != right[n] ==> text_less(left, right) == (
        left[n] < right[n]),
    decreases n,
{
    if n > 0 {
        let a = left.drop_first();
        let b = right.drop_first();
        assert forall|i: int| 0 <= i < n - 1 implies a[i] == b[i] by {
            assert(a[i] == left[i + 1]);
            assert(b[i] == right[i + 1]);
        }
        lemma_less_after_prefix(a, b, n - 1);
        assert(left[0] == right[0]);
    }
}

/// Whether a text comes before another one.
pub fn comes_before(left: &String, right: &String) -> (answer: bool)
    ensures
        answer == text_less(left@, right@),
{
    let left_len: usize = left.as_str().unicode_len();
    let right_len: usize = right.as_str().unicode_len();
    let mut i: usize = 0;
    while i < left_len && i < right_len
        invariant
            i <= left_len,
            i <= right_len,
            left_len == left@.len(),
            right_len == right@.len(),
            forall|j: int| 0 <= j < i ==> left@[j] == right@[j],
        decreases left_len - i,
    {
        let a: char = left.as_str().get_char(i);
        let b: char = right.as_str().get_char(i);
        if a != b {
            proof {
                lemma_less_after_prefix(left@, right@, i as int);
            }
            return a < b;
        }
        i = i + 1;
    }
    proof {
        lemma_less_after_prefix(left@, right@, i as int);
    }
    i < right_len
}

/// Whether a list of texts ascends, so that none occurs twice.
pub open spec fn ascending(list: Seq<Seq<char>>) -> bool {
    forall|i: int, j: int| 0 <= i < j < list.len() ==> text_less(list[i], list[j])
}

/// Two ascending lists with the same texts are the same list.
pub proof fn law_ascending_lists_are_determined(a: Seq<Seq<char>>, b: Seq<Seq<char>>)
    requires
        ascending(a),
        ascending(b),
        forall|x: Seq<char>| #[trigger] a.contains(x) <==> b.contains(x),
    ensures
        a == b,
    decreases a.len(),
{
    if a.len() == 0 {
        if b.len() > 0 {
            assert(b.contains(b[0]));
            assert(a.contains(b[0]));
        }
        assert(a =~= b);
    } else {
        assert(a.contains(a[0]));
        assert(b.contains(a[0]));
        let k = choose|k: int| 0 <= k < b.len() && b[k] == a[0];
        if k > 0 {
            assert(text_less(b[0], a[0]));
            assert(b.contains(b[0]));
            assert(a.contains(b[0]));
            let m = choose|m: int| 0 <= m < a.len() && a[m] == b[0];
            if m == 0 {
                law_order_is_irreflexive(a[0]);
            } else {
                assert(text_less(a[0], a[m]));
                law_order_is_asymmetric(a[0], b[0]);
            }
        }
        let ta = a.drop_first();
        let tb = b.drop_first();
        assert forall|i: int, j: int| 0 <= i < j < ta.len() implies text_less(ta[i], ta[j]) by {
            assert(ta[i] == a[i + 1] && ta[j] == a[j + 1]);
        }
        assert forall|i: int, j: int| 0 <= i < j < tb.len() implies text_less(tb[i], tb[j]) by {
            assert(tb[i] == b[i + 1] && tb[j] == b[j + 1]);
        }
        assert forall|x: Seq<char>| #[trigger] ta.contains(x) <==> tb.contains(x) by {
            lemma_tail_contains(a, b, x);
            lemma_tail_contains(b, a, x);
        }
        law_ascending_lists_are_determined(ta, tb);
        assert(a =~= seq![a[0]] + ta);
        assert(b =~= seq![b[0]] + tb);
    }
}

proof fn lemma_tail_contains(a: Seq<Seq<char>>, b: Seq<Seq<char>>, x: Seq<char>)
    requires
        a.len() > 0,
        b.len() > 0,
        a[0] == b[0],
        ascending(a),
        ascending(b),
        forall|y: Seq<char>| #[trigger] a.contains(y) <==> b.contains(y),
    ensures
        a.drop_first().contains(x) ==> b.drop_first().contains(x),
{
    if a.drop_first().contains(x) {
        let i = choose|i: int| 0 <= i < a.drop_first().len() && a.drop_first()[i] == x;
        assert(a[i + 1] == x);
        assert(a.contains(x));
        assert(b.contains(x));
        let k = choose|k: int| 0 <= k < b.len() && b[k] == x;
        if k == 0 {
            assert(text_less(a[0], a[i + 1]));
            law_order_is_irreflexive(x);
        }
        assert(b.drop_first()[k - 1] == x);
    }
}

/// Adds a text to an ascending list, unless it is there.
pub fn insert_ascending(list: &mut Vec<String>, item: &String)
    requires
        ascending(texts(old(list)@)),
    ensures
        ascending(texts(final(list)@)),
        forall|x: Seq<char>| #[trigger]
            texts(final(list)@).contains(x) <==> texts(old(list)@).contains(x) || x == item@,
{
    let ghost before = texts(list@);
    let mut i: usize = 0;
    while i < list.len() && comes_before(&list[i], item)
        invariant
            i <= list.len(),
            list@ == old(list)@,
            before == texts(old(list)@),
            forall|j: int| 0 <= j < i ==> text_less(before[j], item@),
        ensures
            i <= list.len(),
            list@ == old(list)@,
            before == texts(old(list)@),
            forall|j: int| 0 <= j < i ==> text_less(before[j], item@),
            i == list.len() || !text_less(before[i as int], item@),
        decreases list.len() - i,
    {
        assert(before[i as int] == list@[i as int]@);
        i = i + 1;
    }
    if i < list.len() && crate::text::same_text(&list[i], item) {
        assert(before[i as int] == item@);
        return;
    }
    list.insert(i, item.clone());
    proof {
        let after = texts(list@);
        assert(after =~= before.insert(i as int, item@));
        if i < before.len() {
            law_order_is_total(before[i as int], item@);
        }
        assert forall|a: int, b: int| 0 <= a < b < after.len() implies text_less(
            after[a],
            after[b],
        ) by {
            if b < i {
                assert(text_less(before[a], before[b]));
            } else if b == i {
            } else if a < i {
                assert(text_less(before[a], before[b - 1]));
            } else if a == i {
                if b - 1 > i {
                    assert(text_less(before[i as int], before[b - 1]));
                    law_order_is_transitive(item@, before[i as int], before[b - 1]);
                }
            } else {
                assert(text_less(before[a - 1], before[b - 1]));
            }
        }
        assert forall|x: Seq<char>| #[trigger] after.contains(x) <==> before.contains(x) || x
            == item@ by {
            if after.contains(x) {
                let k = choose|k: int| 0 <= k < after.len() && after[k] == x;
                if k < i {
                    assert(before[k] == x);
                } else if k > i {
                    assert(before[k - 1] == x);
                }
            }
            if before.contains(x) {
                let k = choose|k: int| 0 <= k < before.len() && before[k] == x;
                if k < i {
                    assert(after[k] == x);
                } else {
                    assert(after[k + 1] == x);
                }
            }
            if x == item@ {
                assert(after[i as int] == x);
            }
        }
    }
}

/// The first character in which two texts differ decides their order; a text comes
/// before every longer one that begins with it.
pub proof fn law_the_first_difference_decides(left: Seq<char>, right: Seq<char>, n: int)
    requires
        0 <= n <= left.len(),
        n <= right.len(),
        forall|i: int| 0 <= i < n ==> left[i] == right[i],
    ensures
        n < left.len() && n < right.len() && left[n] < right[n] ==> text_less(left, right),
        n < left.len() && n < right.len() && right[n] < left[n] ==> !text_less(left, right),
        n == left.len() && n < right.len() ==> text_less(left, right),
        n == right.len() ==> !text_less(left, right),
{
    lemma_less_after_prefix(left, right, n);
}

} // verus!
