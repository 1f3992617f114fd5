//! The list of removed Photos, one page at a time.
use crate::order::text_less;
use crate::removal::RemovalRow;
use crate::sorting::{
    key_less, keys_view, law_keys_of_one_rank_stand_by_text, law_sorting_orders_every_row,
    rows_view, sort_order, sorted_rows, KeyView, SortKey,
};
use vstd::prelude::*;
use vstd::string::*;

verus! {

/// A Photo that was removed, with the marker of its removal.
#[derive(Clone, Debug, PartialEq, Eq)]
pub struct RemovedPhotoRecord {
    pub photo_id: String,
    pub removed_at_ms: i64,
}

/// What a [`RemovedPhotoRecord`] stands for.
pub struct RemovedView {
    pub photo_id: Seq<char>,
    pub removed_at_ms: i64,
}

impl View for RemovedPhotoRecord {
    type V = RemovedView;

    open spec fn view(&self) -> RemovedView {
        RemovedView { photo_id: self.photo_id@, removed_at_ms: self.removed_at_ms }
    }
}

/// What a list of removed Photos stands for.
pub open spec fn removed_view(list: Seq<RemovedPhotoRecord>) -> Seq<RemovedView> {
    Seq::new(list.len(), |i: int| list[i]@)
}

/// The Photos that are removed, in the order of their rows.
pub open spec fn removed_rows(rows: Seq<RemovalRow>) -> Seq<RemovedView>
    decreases rows.len(),
{
    if rows.len() == 0 {
        Seq::empty()
    } else {
        let before = removed_rows(rows.drop_last());
        match rows.last().removed_at_ms {
            Some(marker) => before.push(
                RemovedView { photo_id: rows.last().photo_id@, removed_at_ms: marker },
            ),
            None => before,
        }
    }
}

/// The key that removed Photos are ordered by: the later the marker, the lower
/// the rank, then the identity.
pub open spec fn removed_key(row: RemovedView) -> KeyView {
    KeyView { rank: (i64::MAX - row.removed_at_ms) as u64, texts: seq![row.photo_id] }
}

/// The keys of a list of removed Photos.
pub open spec fn removed_keys(rows: Seq<RemovedView>) -> Seq<KeyView> {
    Seq::new(rows.len(), |i: int| removed_key(rows[i]))
}

/// The removed Photos, the newest removal first.
pub open spec fn newest_removed(rows: Seq<RemovedView>) -> Seq<RemovedView> {
    Seq::new(rows.len(), |i: int| rows[sort_order(removed_keys(rows), rows.len())[i]])
}

/// Where a page starts: one that the database cannot count to starts at the
/// beginning.
pub open spec fn page_start(start: usize, len: nat) -> int {
    let from = if start > i64::MAX {
        0
    } else {
        start as int
    };
    if from > len {
        len as int
    } else {
        from
    }
}

/// Where a page ends.
pub open spec fn page_end(start: usize, limit: usize, len: nat) -> int {
    if page_start(start, len) + limit > len {
        len as int
    } else {
        page_start(start, len) + limit
    }
}

fn collect_removed(rows: &Vec<RemovalRow>) -> (list: Vec<RemovedPhotoRecord>)
    ensures
        removed_view(list@) == removed_rows(rows@),
{
    let mut list: Vec<RemovedPhotoRecord> = Vec::new();
    let mut i: usize = 0;
    assert(rows@.take(0) =~= Seq::<RemovalRow>::empty());
    assert(removed_view(list@) =~= Seq::<RemovedView>::empty());
    while i < rows.len()
        invariant
            i <= rows.len(),
            removed_view(list@) == removed_rows(rows@.take(i as int)),
        decreases rows.len() - i,
    {
        proof {
            assert(rows@.take(i + 1).drop_last() =~= rows@.take(i as int));
            assert(rows@.take(i + 1).last() == rows@[i as int]);
        }
        match rows[i].removed_at_ms {
            Some(removed_at_ms) => {
                let record: RemovedPhotoRecord = RemovedPhotoRecord {
                    photo_id: rows[i].photo_id.clone(),
                    removed_at_ms,
                };
                assert(removed_view(list@.push(record)) =~= removed_view(list@).push(record@));
                list.push(record);
            },
            None => {},
        }
        i = i + 1;
    }
    assert(rows@.take(rows@.len() as int) =~= rows@);
    list
}

/// One page of the removed Photos, the newest removal first, and how many there
/// are in all.
pub fn removed_photos(rows: &Vec<RemovalRow>, start: usize, limit: usize) -> (page: (
    Vec<RemovedPhotoRecord>,
    usize,
))
    ensures
        ({
            let all = newest_removed(removed_rows(rows@));
            &&& removed_view(page.0@) == all.subrange(
                page_start(start, all.len()),
                page_end(start, limit, all.len()),
            )
            &&& page.1 == all.len()
        }),
{
    let list: Vec<RemovedPhotoRecord> = collect_removed(rows);
    let ghost views = removed_view(list@);
    let ghost all = removed_keys(views);
    let mut keys: Vec<SortKey> = Vec::new();
    let mut i: usize = 0;
    while i < list.len()
        invariant
            i <= list.len(),
            views == removed_view(list@),
            all == removed_keys(views),
            keys_view(keys@) == all.take(i as int),
        decreases list.len() - i,
    {
        let rank: u64 = (i64::MAX as i128 - list[i].removed_at_ms as i128) as u64;
        let key: SortKey = SortKey { rank, texts: vec![list[i].photo_id.clone()] };
        proof {
            assert(key@.texts =~= removed_key(views[i as int]).texts);
            assert(keys_view(keys@.push(key)) =~= keys_view(keys@).push(key@));
            assert(all.take(i + 1) =~= all.take(i as int).push(all[i as int]));
        }
        keys.push(key);
        i = i + 1;
    }
    assert(all.take(all.len() as int) =~= all);
    assert(keys.len() == keys_view(keys@).len());
    let order: Vec<usize> = sorted_rows(&keys);
    let ghost sorted = newest_removed(views);
    let total: usize = list.len();
    assert(total == views.len());
    let wanted: usize = if start as u128 > i64::MAX as u128 {
        0
    } else {
        start
    };
    let from: usize = if wanted > total {
        total
    } else {
        wanted
    };
    let until: usize = if limit > total - from {
        total
    } else {
        from + limit
    };
    assert(from == page_start(start, views.len()));
    assert(until == page_end(start, limit, views.len()));
    let mut records: Vec<RemovedPhotoRecord> = Vec::new();
    let mut k: usize = from;
    assert(sorted.subrange(from as int, from as int) =~= Seq::<RemovedView>::empty());
    assert(removed_view(records@) =~= Seq::<RemovedView>::empty());
    while k < until
        invariant
            from <= k <= until <= total,
            total == list.len(),
            order.len() == list.len(),
            views == removed_view(list@),
            sorted == newest_removed(views),
            rows_view(order@) == sort_order(removed_keys(views), views.len()),
            forall|j: int| 0 <= j < order.len() ==> (#[trigger] order@[j]) < list.len(),
            removed_view(records@) == sorted.subrange(from as int, k as int),
        decreases until - k,
    {
        let record: RemovedPhotoRecord = RemovedPhotoRecord {
            photo_id: list[order[k]].photo_id.clone(),
            removed_at_ms: list[order[k]].removed_at_ms,
        };
        proof {
            assert(rows_view(order@)[k as int] == order@[k as int]);
            assert(record@ == sorted[k as int]);
            assert(removed_view(records@.push(record)) =~= removed_view(records@).push(record@));
            assert(sorted.subrange(from as int, k + 1) =~= sorted.subrange(
                from as int,
                k as int,
            ).push(sorted[k as int]));
        }
        records.push(record);
        k = k + 1;
    }
    (records, total)
}

/// The list of removed Photos holds every one of them once, a later removal before
/// an earlier one.
pub proof fn law_newest_removals_come_first(rows: Seq<RemovedView>)
    ensures
        newest_removed(rows).to_multiset() == rows.to_multiset(),
        forall|i: int, j: int|
            0 <= i < j < rows.len() ==> (#[trigger] newest_removed(rows)[i]).removed_at_ms >= (
            #[trigger] newest_removed(rows)[j]).removed_at_ms,
{
    let keys = removed_keys(rows);
    let order = sort_order(keys, rows.len());
    let sorted = newest_removed(rows);
    law_sorting_orders_every_row(keys, rows.len());
    assert forall|i: int, j: int| 0 <= i < j < rows.len() implies (
    #[trigger] sorted[i]).removed_at_ms >= (#[trigger] sorted[j]).removed_at_ms by {
        assert(keys[order[i]] == removed_key(rows[order[i]]));
        assert(keys[order[j]] == removed_key(rows[order[j]]));
        assert(!key_less(keys[order[j]], keys[order[i]]));
    }
    lemma_rearranged(rows, order);
    assert(sorted =~= Seq::new(order.len(), |i: int| rows[order[i]]));
}

proof fn lemma_rearranged(rows: Seq<RemovedView>, order: Seq<int>)
    requires
        order.len() == rows.len(),
        forall|i: int| 0 <= i < order.len() ==> 0 <= #[trigger] order[i] < rows.len(),
        forall|row: int| 0 <= row < rows.len() ==> #[trigger] order.contains(row),
        order.no_duplicates(),
    ensures
        Seq::new(order.len(), |i: int| rows[order[i]]).to_multiset() == rows.to_multiset(),
    decreases rows.len(),
{
    broadcast use vstd::seq_lib::group_to_multiset_ensures;

    let moved = Seq::new(order.len(), |i: int| rows[order[i]]);
    if rows.len() == 0 {
        assert(moved =~= rows);
    } else {
        let last = rows.len() - 1;
        assert(order.contains(last));
        let at = choose|at: int| 0 <= at < order.len() && order[at] == last;
        let rest = order.remove(at);
        let front = rows.drop_last();
        assert forall|i: int| 0 <= i < rest.len() implies 0 <= #[trigger] rest[i]
            < front.len() by {
            let k = if i < at { i } else { i + 1 };
            assert(rest[i] == order[k]);
            assert(order[k] != order[at]);
        }
        assert forall|row: int| 0 <= row < front.len() implies #[trigger] rest.contains(row) by {
            assert(order.contains(row));
            let k = choose|k: int| 0 <= k < order.len() && order[k] == row;
            let i = if k < at { k } else { k - 1 };
            assert(rest[i] == row);
        }
        assert forall|i: int, j: int|
            0 <= i < rest.len() && 0 <= j < rest.len() && i != j implies rest[i] != rest[j] by {
            let a = if i < at { i } else { i + 1 };
            let b = if j < at { j } else { j + 1 };
            assert(rest[i] == order[a] && rest[j] == order[b]);
        }
        lemma_rearranged(front, rest);
        let less = Seq::new(rest.len(), |i: int| front[rest[i]]);
        assert(less =~= moved.remove(at));
        assert(moved =~= less.insert(at, rows[last]));
        assert(rows =~= front.push(rows[last]));
    }
}

proof fn lemma_removed_rows(rows: Seq<RemovalRow>, told: RemovedView)
    ensures
        removed_rows(rows).len() == rows.filter(
            |row: RemovalRow| row.removed_at_ms is Some,
        ).len(),
        removed_rows(rows).contains(told) <==> exists|r: int|
            0 <= r < rows.len() && (#[trigger] rows[r]).photo_id@ == told.photo_id
                && rows[r].removed_at_ms == Some(told.removed_at_ms),
    decreases rows.len(),
{
    reveal(Seq::filter);
    if rows.len() > 0 {
        let front = rows.drop_last();
        let before = removed_rows(front);
        let after = removed_rows(rows);
        lemma_removed_rows(front, told);
        if before.contains(told) {
            let i = choose|i: int| 0 <= i < before.len() && before[i] == told;
            assert(after[i] == told);
            let r = choose|r: int|
                0 <= r < front.len() && (#[trigger] front[r]).photo_id@ == told.photo_id
                    && front[r].removed_at_ms == Some(told.removed_at_ms);
            assert(rows[r].photo_id@ == told.photo_id);
        }
        let last = rows.len() - 1;
        if rows[last].photo_id@ == told.photo_id && rows[last].removed_at_ms == Some(
            told.removed_at_ms,
        ) {
            assert(after[before.len() as int] == told);
        }
        if exists|r: int|
            0 <= r < rows.len() && (#[trigger] rows[r]).photo_id@ == told.photo_id
                && rows[r].removed_at_ms == Some(told.removed_at_ms) {
            let r = choose|r: int|
                0 <= r < rows.len() && (#[trigger] rows[r]).photo_id@ == told.photo_id
                    && rows[r].removed_at_ms == Some(told.removed_at_ms);
            if r < last {
                assert(front[r] == rows[r]);
            }
        }
        if after.contains(told) && !before.contains(told) {
            let i = choose|i: int| 0 <= i < after.len() && after[i] == told;
            if i < before.len() {
                assert(before[i] == told);
            }
        }
    }
}

/// A page of the removed Photos tells Photos that are removed, with the markers of their
/// removal, the last removed one first and those of one marker by identity. It holds as
/// many as were asked for and are left, and counts all of them; a page that has room for
/// all of them leaves none out.
pub proof fn law_pages_tell_removed_photos(
    rows: Vec<RemovalRow>,
    start: usize,
    limit: usize,
    page: (Vec<RemovedPhotoRecord>, usize),
    i: int,
    j: int,
    r: int,
)
    requires
        call_ensures(removed_photos, (&rows, start, limit), page),
    ensures
        page.1 == rows@.filter(|row: RemovalRow| row.removed_at_ms is Some).len(),
        page.0.len() <= limit,
        page.0.len() <= page.1,
        start <= page.1 && page.1 - start <= limit && page.1 <= i64::MAX ==> page.0.len() == page.1
            - start,
        start <= page.1 && limit <= page.1 - start && page.1 <= i64::MAX ==> page.0.len() == limit,
        page.1 <= start <= i64::MAX ==> page.0.len() == 0,
        0 <= i < page.0.len() ==> exists|q: int|
            0 <= q < rows.len() && (#[trigger] rows@[q]).photo_id@ == page.0@[i].photo_id@
                && rows@[q].removed_at_ms == Some(page.0@[i].removed_at_ms),
        0 <= i < j < page.0.len() ==> page.0@[i].removed_at_ms >= page.0@[j].removed_at_ms,
        0 <= i < j < page.0.len() && page.0@[i].removed_at_ms == page.0@[j].removed_at_ms
            ==> !text_less(page.0@[j].photo_id@, page.0@[i].photo_id@),
        0 <= r < rows.len() && rows@[r].removed_at_ms is Some && start == 0 && limit >= page.1
            ==> exists|k: int|
            0 <= k < page.0.len() && (#[trigger] page.0@[k]).photo_id@ == rows@[r].photo_id@
                && rows@[r].removed_at_ms == Some(page.0@[k].removed_at_ms),
{
    let removed = removed_rows(rows@);
    let all = newest_removed(removed);
    let keys = removed_keys(removed);
    let order = sort_order(keys, removed.len());
    let from = page_start(start, all.len());
    let told = removed_view(page.0@);
    law_sorting_orders_every_row(keys, removed.len());
    assert(told.len() == page.0.len());
    if 0 <= i < page.0.len() {
        let row = told[i];
        assert(row == page.0@[i]@);
        assert(row == all[from + i]);
        assert(removed[order[from + i]] == row);
        assert(removed.contains(row));
        lemma_removed_rows(rows@, row);
    }
    lemma_removed_rows(rows@, arbitrary());
    if 0 <= i < j < page.0.len() {
        let a = order[from + i];
        let b = order[from + j];
        assert(told[i] == page.0@[i]@ && told[i] == removed[a]);
        assert(told[j] == page.0@[j]@ && told[j] == removed[b]);
        assert(keys[a] == removed_key(removed[a]));
        assert(keys[b] == removed_key(removed[b]));
        assert(!key_less(keys[b], keys[a]));
        if page.0@[i].removed_at_ms == page.0@[j].removed_at_ms {
            law_keys_of_one_rank_stand_by_text(keys[b], keys[a]);
        }
    }
    if 0 <= r < rows.len() && rows@[r].removed_at_ms is Some && start == 0 && limit >= page.1 {
        let row = RemovedView {
            photo_id: rows@[r].photo_id@,
            removed_at_ms: rows@[r].removed_at_ms->0,
        };
        lemma_removed_rows(rows@, row);
        assert(removed.contains(row));
        let q = choose|q: int| 0 <= q < removed.len() && removed[q] == row;
        assert(order.contains(q));
        let k = choose|k: int| 0 <= k < order.len() && order[k] == q;
        assert(all[k] == row);
        assert(told[k] == row);
        assert(page.0@[k]@ == row);
    }
}

} // verus!
