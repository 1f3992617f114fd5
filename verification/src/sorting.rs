//! Rows in the order of their keys. A key is a rank and a list of texts; keys are
//! compared by rank, then text by text, and rows with the same key stay in the
//! order they came in.
use crate::order::{
    comes_before, law_order_is_irreflexive, law_order_is_total, law_order_is_transitive, text_less,
};
use crate::text::{same_text, texts};
use vstd::prelude::*;
use vstd::string::*;

verus! {

/// Whether a list of texts comes before another one.
pub open spec fn texts_less(left: Seq<Seq<char>>, right: Seq<Seq<char>>) -> bool
    decreases right.len(),
{
    if right.len() == 0 {
        false
    } else if left.len() == 0 {
        true
    } else if left[0] != right[0] {
        text_less(left[0], right[0])
    } else {
        texts_less(left.drop_first(), right.drop_first())
    }
}

proof fn lemma_texts_irreflexive(list: Seq<Seq<char>>)
    ensures
        !texts_less(list, list),
    decreases list.len(),
{
    if list.len() > 0 {
        lemma_texts_irreflexive(list.drop_first());
    }
}

proof fn lemma_texts_transitive(a: Seq<Seq<char>>, b: Seq<Seq<char>>, c: Seq<Seq<char>>)
    requires
        texts_less(a, b),
        texts_less(b, c),
    ensures
        texts_less(a, c),
    decreases a.len(),
{
    if a.len() > 0 {
        if a[0] == b[0] && b[0] == c[0] {
            lemma_texts_transitive(a.drop_first(), b.drop_first(), c.drop_first());
        } else if a[0] != b[0] && b[0] != c[0] {
            law_order_is_transitive(a[0], b[0], c[0]);
            law_order_is_irreflexive(a[0]);
        }
    }
}

proof fn lemma_texts_total(a: Seq<Seq<char>>, b: Seq<Seq<char>>)
    ensures
        a == b || texts_less(a, b) || texts_less(b, a),
    decreases a.len(),
{
    if a.len() == 0 && b.len() == 0 {
        assert(a =~= b);
    } else if a.len() > 0 && b.len() > 0 {
        if a[0] == b[0] {
            lemma_texts_total(a.drop_first(), b.drop_first());
            if a.drop_first() == b.drop_first() {
                assert(a =~= seq![a[0]] + a.drop_first());
                assert(b =~= seq![b[0]] + b.drop_first());
            }
        } else {
            law_order_is_total(a[0], b[0]);
        }
    }
}

/// What a row is ordered by.
#[derive(Clone, Debug, PartialEq, Eq)]
pub struct SortKey {
    pub rank: u64,
    pub texts: Vec<String>,
}

/// What a [`SortKey`] stands for.
pub struct KeyView {
    pub rank: u64,
    pub texts: Seq<Seq<char>>,
}

impl View for SortKey {
    type V = KeyView;

    open spec fn view(&self) -> KeyView {
        KeyView { rank: self.rank, texts: texts(self.texts@) }
    }
}

/// Whether a key comes before another one.
pub open spec fn key_less(left: KeyView, right: KeyView) -> bool {
    left.rank < right.rank || (left.rank == right.rank && texts_less(left.texts, right.texts))
}

/// No key comes before itself.
pub proof fn law_key_order_is_irreflexive(key: KeyView)
    ensures
        !key_less(key, key),
{
    lemma_texts_irreflexive(key.texts);
}

/// The order of keys is transitive.
pub proof fn law_key_order_is_transitive(a: KeyView, b: KeyView, c: KeyView)
    requires
        key_less(a, b),
        key_less(b, c),
    ensures
        key_less(a, c),
{
    if a.rank == b.rank && b.rank == c.rank {
        lemma_texts_transitive(a.texts, b.texts, c.texts);
    }
}

/// Of two different keys one comes before the other.
pub proof fn law_key_order_is_total(a: KeyView, b: KeyView)
    ensures
        a == b || key_less(a, b) || key_less(b, a),
{
    lemma_texts_total(a.texts, b.texts);
}

proof fn lemma_not_less_is_transitive(a: KeyView, b: KeyView, c: KeyView)
    requires
        !key_less(b, a),
        !key_less(c, b),
    ensures
        !key_less(c, a),
{
    if key_less(c, a) {
        law_key_order_is_total(a, b);
        law_key_order_is_total(b, c);
        if a == b || b == c {
        } else {
            law_key_order_is_transitive(a, b, c);
            law_key_order_is_transitive(c, a, c);
            law_key_order_is_irreflexive(c);
        }
    }
}

fn key_before(left: &SortKey, right: &SortKey) -> (answer: bool)
    ensures
        answer == key_less(left@, right@),
{
    if left.rank != right.rank {
        return left.rank < right.rank;
    }
    let ghost a = texts(left.texts@);
    let ghost b = texts(right.texts@);
    let mut i: usize = 0;
    assert(a.skip(0) =~= a);
    assert(b.skip(0) =~= b);
    while i < left.texts.len() && i < right.texts.len()
        invariant
            i <= left.texts.len(),
            i <= right.texts.len(),
            left.rank == right.rank,
            a == texts(left.texts@),
            b == texts(right.texts@),
            texts_less(a, b) == texts_less(a.skip(i as int), b.skip(i as int)),
        decreases left.texts.len() - i,
    {
        assert(a.skip(i as int)[0] == left.texts@[i as int]@);
        assert(b.skip(i as int)[0] == right.texts@[i as int]@);
        if !same_text(&left.texts[i], &right.texts[i]) {
            return comes_before(&left.texts[i], &right.texts[i]);
        }
        assert(a.skip(i as int).drop_first() =~= a.skip(i + 1));
        assert(b.skip(i as int).drop_first() =~= b.skip(i + 1));
        i = i + 1;
    }
    i < right.texts.len()
}

/// What a list of keys stands for.
pub open spec fn keys_view(keys: Seq<SortKey>) -> Seq<KeyView> {
    Seq::new(keys.len(), |i: int| keys[i]@)
}

/// Where a row goes among ordered ones: behind the last that it does not come
/// before.
pub open spec fn place(order: Seq<int>, keys: Seq<KeyView>, row: int) -> int
    decreases order.len(),
{
    if order.len() == 0 {
        0
    } else if key_less(keys[row], keys[order.last()]) {
        place(order.drop_last(), keys, row)
    } else {
        order.len() as int
    }
}

/// The first rows in the order of their keys.
pub open spec fn sort_order(keys: Seq<KeyView>, n: nat) -> Seq<int>
    decreases n,
{
    if n == 0 {
        Seq::empty()
    } else {
        let before = sort_order(keys, (n - 1) as nat);
        before.insert(place(before, keys, n - 1), n - 1)
    }
}

proof fn lemma_place_bounds(order: Seq<int>, keys: Seq<KeyView>, row: int)
    ensures
        0 <= place(order, keys, row) <= order.len(),
        forall|i: int|
            place(order, keys, row) <= i < order.len() ==> key_less(
                keys[row],
                keys[#[trigger] order[i]],
            ),
        place(order, keys, row) > 0 ==> !key_less(
            keys[row],
            keys[order[place(order, keys, row) - 1]],
        ),
    decreases order.len(),
{
    if order.len() > 0 && key_less(keys[row], keys[order.last()]) {
        lemma_place_bounds(order.drop_last(), keys, row);
        assert forall|i: int| place(order, keys, row) <= i < order.len() implies key_less(
            keys[row],
            keys[#[trigger] order[i]],
        ) by {
            if i < order.len() - 1 {
                assert(order.drop_last()[i] == order[i]);
            }
        }
    }
}

/// Whether rows stand in the order of their keys.
pub open spec fn in_order(order: Seq<int>, keys: Seq<KeyView>) -> bool {
    forall|i: int, j: int|
        0 <= i < j < order.len() ==> !key_less(keys[#[trigger] order[j]], keys[#[trigger] order[i]])
}

/// Sorting keeps every row, each once, and puts them in the order of their keys.
pub proof fn law_sorting_orders_every_row(keys: Seq<KeyView>, n: nat)
    ensures
        sort_order(keys, n).len() == n,
        forall|i: int| 0 <= i < n ==> 0 <= #[trigger] sort_order(keys, n)[i] < n,
        forall|row: int| 0 <= row < n ==> #[trigger] sort_order(keys, n).contains(row),
        sort_order(keys, n).no_duplicates(),
        in_order(sort_order(keys, n), keys),
    decreases n,
{
    if n > 0 {
        let m = (n - 1) as nat;
        law_sorting_orders_every_row(keys, m);
        let before = sort_order(keys, m);
        let after = sort_order(keys, n);
        let at = place(before, keys, n - 1);
        lemma_place_bounds(before, keys, n - 1);
        assert(after == before.insert(at, n - 1));
        assert forall|i: int| 0 <= i < n implies 0 <= #[trigger] after[i] < n by {
            if i < at {
                assert(after[i] == before[i]);
            } else if i > at {
                assert(after[i] == before[i - 1]);
            }
        }
        assert forall|row: int| 0 <= row < n implies #[trigger] after.contains(row) by {
            if row == n - 1 {
                assert(after[at] == row);
            } else {
                assert(before.contains(row));
                let i = choose|i: int| 0 <= i < before.len() && before[i] == row;
                if i < at {
                    assert(after[i] == row);
                } else {
                    assert(after[i + 1] == row);
                }
            }
        }
        assert forall|i: int, j: int|
            0 <= i < after.len() && 0 <= j < after.len() && i != j implies after[i] != after[j] by {
            let a = if i < at { i } else { i - 1 };
            let b = if j < at { j } else { j - 1 };
            if i != at {
                assert(after[i] == before[a]);
                assert(0 <= before[a] < m);
            }
            if j != at {
                assert(after[j] == before[b]);
                assert(0 <= before[b] < m);
            }
        }
        assert forall|i: int, j: int| 0 <= i < j < after.len() implies !key_less(
            keys[#[trigger] after[j]],
            keys[#[trigger] after[i]],
        ) by {
            let a = if i < at { i } else { i - 1 };
            let b = if j < at { j } else { j - 1 };
            if i != at && j != at {
                assert(after[i] == before[a] && after[j] == before[b]);
            } else if i == at {
                assert(after[j] == before[b]);
                assert(key_less(keys[n - 1], keys[before[b]]));
                if key_less(keys[before[b]], keys[n - 1]) {
                    law_key_order_is_transitive(keys[n - 1], keys[before[b]], keys[n - 1]);
                    law_key_order_is_irreflexive(keys[n - 1]);
                }
            } else {
                assert(after[i] == before[a]);
                assert(!key_less(keys[n - 1], keys[before[at - 1]]));
                if a != at - 1 {
                    assert(!key_less(keys[before[at - 1]], keys[before[a]]));
                    lemma_not_less_is_transitive(
                        keys[before[a]],
                        keys[before[at - 1]],
                        keys[n - 1],
                    );
                }
            }
        }
    }
}

/// What a list of row numbers stands for.
pub open spec fn rows_view(rows: Seq<usize>) -> Seq<int> {
    Seq::new(rows.len(), |i: int| rows[i] as int)
}

/// Sorts rows by their keys: the numbers of the rows in order.
pub fn sorted_rows(keys: &Vec<SortKey>) -> (order: Vec<usize>)
    ensures
        rows_view(order@) == sort_order(keys_view(keys@), keys@.len()),
        order.len() == keys.len(),
        forall|i: int| 0 <= i < order.len() ==> (#[trigger] order@[i]) < keys.len(),
{
    let ghost all = keys_view(keys@);
    let mut order: Vec<usize> = Vec::new();
    let mut n: usize = 0;
    assert(rows_view(order@) =~= Seq::<int>::empty());
    while n < keys.len()
        invariant
            n <= keys.len(),
            all == keys_view(keys@),
            rows_view(order@) == sort_order(all, n as nat),
            order.len() == n,
            forall|i: int| 0 <= i < order.len() ==> (#[trigger] order@[i]) < n,
        decreases keys.len() - n,
    {
        let ghost before = rows_view(order@);
        let mut at: usize = order.len();
        assert(before.take(at as int) =~= before);
        while at > 0 && key_before(&keys[n], &keys[order[at - 1]])
            invariant
                at <= order.len(),
                n < keys.len(),
                order.len() == n,
                all == keys_view(keys@),
                before == rows_view(order@),
                place(before, all, n as int) == place(before.take(at as int), all, n as int),
                forall|i: int| 0 <= i < order.len() ==> (#[trigger] order@[i]) < n,
            decreases at,
        {
            assert(before.take(at as int).drop_last() =~= before.take(at - 1));
            assert(before.take(at as int).last() == order@[at - 1]);
            at = at - 1;
        }
        proof {
            if at > 0 {
                assert(before.take(at as int).last() == order@[at - 1]);
            }
            assert(place(before, all, n as int) == at);
            assert(rows_view(order@.insert(at as int, n)) =~= before.insert(at as int, n as int));
        }
        order.insert(at, n);
        n = n + 1;
    }
    order
}

/// Keys of one rank and one text each stand in the order of their texts.
pub proof fn law_keys_of_one_rank_stand_by_text(a: KeyView, b: KeyView)
    requires
        a.rank == b.rank,
        a.texts.len() == 1,
        b.texts.len() == 1,
    ensures
        key_less(a, b) <==> text_less(a.texts[0], b.texts[0]),
{
    if a.texts[0] == b.texts[0] {
        law_order_is_irreflexive(a.texts[0]);
    }
    assert(!texts_less(a.texts.drop_first(), b.texts.drop_first()));
}

} // verus!
