//! Restoring removed Photos: compare-and-set against the removal that was
//! reviewed.
use crate::order::{ascending, insert_ascending};
use crate::removal::{
    clone_removal_rows, lemma_removal_rows, removal_after, removal_ids, removal_rows,
    PhotoOperationRemainder, PhotoRemovalMarker,
    PhotoRestoration, PhotoRestorationCounts, PhotoRestorationResult, RemovalRow, RemovalView,
};
use crate::sorting::{
    keys_view, law_sorting_orders_every_row, rows_view, sort_order, sorted_rows, KeyView, SortKey,
};
use crate::text::{
    clone_opt_text, first_index, lemma_first_index, lemma_first_index_absent,
    lemma_first_index_found, lemma_texts_push, opt_text, same_text, texts,
};
use vstd::prelude::*;
use vstd::string::*;

verus! {

/// A Photo to restore, and the marker of the removal that was reviewed, if any.
pub struct RestoreRequest {
    pub photo_id: String,
    pub expected: Option<i64>,
}

/// What a list of requests stands for.
pub open spec fn requests_view(requests: Seq<RestoreRequest>) -> Seq<(Seq<char>, Option<i64>)> {
    Seq::new(requests.len(), |i: int| (requests[i].photo_id@, requests[i].expected))
}

/// The rows that an operation still owns.
pub open spec fn owned_rows(rows: Seq<RemovalView>, operation: Seq<char>) -> Seq<RemovalView>
    decreases rows.len(),
{
    if rows.len() == 0 {
        Seq::empty()
    } else {
        let before = owned_rows(rows.drop_last(), operation);
        if rows.last().removed_at is Some && rows.last().operation == Some(operation) {
            before.push(rows.last())
        } else {
            before
        }
    }
}

/// The keys that the rows of an operation are ordered by: the marker of the
/// removal, then the Photo.
pub open spec fn owned_keys(rows: Seq<RemovalView>) -> Seq<KeyView> {
    Seq::new(
        rows.len(),
        |i: int|
            KeyView {
                rank: (rows[i].removed_at->0 - i64::MIN) as u64,
                texts: seq![rows[i].photo_id],
            },
    )
}

/// The Photos that an operation still owns, in the order of their keys.
pub open spec fn owned_by(rows: Seq<RemovalView>, operation: Seq<char>) -> Seq<
    (Seq<char>, Option<i64>),
> {
    let owned = owned_rows(rows, operation);
    let order = sort_order(owned_keys(owned), owned.len());
    Seq::new(owned.len(), |i: int| (owned[order[i]].photo_id, None::<i64>))
}

/// The reviewed removals of a list.
pub open spec fn reviewed(markers: Seq<PhotoRemovalMarker>) -> Seq<(Seq<char>, Option<i64>)> {
    Seq::new(markers.len(), |i: int| (markers[i].photo_id@, Some(markers[i].removed_at_ms)))
}

/// The Photos that a restoration asks for.
pub open spec fn requests_of(rows: Seq<RemovalView>, restoration: PhotoRestoration) -> Seq<
    (Seq<char>, Option<i64>),
> {
    match restoration {
        PhotoRestoration::Operation(operation) => owned_by(rows, operation@),
        PhotoRestoration::Photos(markers) => reviewed(markers@),
    }
}

/// The operations that a restoration names.
pub open spec fn named_operations(restoration: PhotoRestoration) -> Set<Seq<char>> {
    match restoration {
        PhotoRestoration::Operation(operation) => set![operation@],
        PhotoRestoration::Photos(_) => Set::empty(),
    }
}

/// How far a restoration has come.
pub struct RestoreProgress {
    pub rows: Seq<RemovalView>,
    pub restored: Seq<Seq<char>>,
    pub changed: Seq<Seq<char>>,
    pub missing: Seq<Seq<char>>,
    pub touched: Set<Seq<char>>,
}

/// A row of a Photo that is not removed.
pub open spec fn cleared(row: RemovalView) -> RemovalView {
    RemovalView { removed_at: None, operation: None, ..row }
}

/// What a restoration comes to. A Photo is restored when it is removed by exactly
/// the removal that was reviewed; a removal that changed since is reported and
/// never cleared.
pub open spec fn restore_after(
    rows: Seq<RemovalView>,
    requests: Seq<(Seq<char>, Option<i64>)>,
    named: Set<Seq<char>>,
) -> RestoreProgress
    decreases requests.len(),
{
    if requests.len() == 0 {
        RestoreProgress {
            rows,
            restored: Seq::empty(),
            changed: Seq::empty(),
            missing: Seq::empty(),
            touched: named,
        }
    } else {
        let before = restore_after(rows, requests.drop_last(), named);
        let (id, expected) = requests.last();
        match first_index(removal_ids(before.rows), id) {
            None => RestoreProgress { missing: before.missing.push(id), ..before },
            Some(i) => {
                let row = before.rows[i];
                if row.removed_at is None || (expected is Some && row.removed_at != expected) {
                    RestoreProgress { changed: before.changed.push(id), ..before }
                } else {
                    RestoreProgress {
                        rows: before.rows.update(i, cleared(row)),
                        restored: before.restored.push(id),
                        touched: match row.operation {
                            Some(operation) => before.touched.insert(operation),
                            None => before.touched,
                        },
                        ..before
                    }
                }
            },
        }
    }
}

/// How many Photos of a list of rows an operation still owns.
pub open spec fn remaining(rows: Seq<RemovalView>, operation: Seq<char>) -> nat
    decreases rows.len(),
{
    if rows.len() == 0 {
        0
    } else {
        remaining(rows.drop_last(), operation) + if rows.last().removed_at is Some
            && rows.last().operation == Some(operation) {
            1nat
        } else {
            0nat
        }
    }
}

/// The operations of a list of remainders.
pub open spec fn remainder_ids(list: Seq<PhotoOperationRemainder>) -> Seq<Seq<char>> {
    Seq::new(list.len(), |i: int| list[i].operation_id@)
}

/// Whether remainders tell every operation of a set, in ascending order, with how
/// many Photos it still owns. An operation that owns nothing is told with zero.
pub open spec fn remainders_told(
    list: Seq<PhotoOperationRemainder>,
    operations: Set<Seq<char>>,
    rows: Seq<RemovalView>,
) -> bool {
    &&& ascending(remainder_ids(list))
    &&& forall|x: Seq<char>| #[trigger] remainder_ids(list).contains(x) <==> operations.contains(x)
    &&& forall|i: int|
        0 <= i < list.len() ==> (#[trigger] list[i]).removed == remaining(
            rows,
            list[i].operation_id@,
        )
}

/// Counts the Photos that an operation still owns.
fn count_remaining(rows: &Vec<RemovalRow>, operation: &String) -> (count: usize)
    ensures
        count == remaining(removal_rows(rows@), operation@),
        count <= rows.len(),
{
    let ghost all = removal_rows(rows@);
    let mut count: usize = 0;
    let mut i: usize = 0;
    while i < rows.len()
        invariant
            i <= rows.len(),
            all == removal_rows(rows@),
            count <= i,
            count == remaining(all.take(i as int), operation@),
        decreases rows.len() - i,
    {
        assert(all.take(i + 1).drop_last() =~= all.take(i as int));
        assert(all.take(i + 1).last() == rows@[i as int]@);
        let owned: bool = match &rows[i].removed_operation {
            Some(owner) => rows[i].removed_at_ms.is_some() && same_text(owner, operation),
            None => false,
        };
        if owned {
            count = count + 1;
        }
        i = i + 1;
    }
    assert(all.take(all.len() as int) =~= all);
    count
}

/// How many Photos each operation of an ascending list still owns.
pub fn operation_remainders(rows: &Vec<RemovalRow>, operations: &Vec<String>) -> (list: Vec<
    PhotoOperationRemainder,
>)
    ensures
        remainder_ids(list@) == texts(operations@),
        forall|i: int|
            0 <= i < list.len() ==> (#[trigger] list@[i]).removed == remaining(
                removal_rows(rows@),
                list@[i].operation_id@,
            ),
{
    let mut list: Vec<PhotoOperationRemainder> = Vec::new();
    let mut i: usize = 0;
    while i < operations.len()
        invariant
            i <= operations.len(),
            list.len() == i,
            forall|j: int| 0 <= j < i ==> (#[trigger] list@[j]).operation_id@ == operations@[j]@,
            forall|j: int|
                0 <= j < i ==> (#[trigger] list@[j]).removed == remaining(
                    removal_rows(rows@),
                    list@[j].operation_id@,
                ),
        decreases operations.len() - i,
    {
        list.push(
            PhotoOperationRemainder {
                operation_id: operations[i].clone(),
                removed: count_remaining(rows, &operations[i]),
            },
        );
        i = i + 1;
    }
    assert(remainder_ids(list@) =~= texts(operations@));
    list
}

fn collect_owned(rows: &Vec<RemovalRow>, operation: &String) -> (owned: Vec<RemovalRow>)
    ensures
        removal_rows(owned@) == owned_rows(removal_rows(rows@), operation@),
        forall|i: int| 0 <= i < owned.len() ==> (#[trigger] owned@[i]).removed_at_ms is Some,
{
    let ghost all = removal_rows(rows@);
    let mut owned: Vec<RemovalRow> = Vec::new();
    let mut i: usize = 0;
    assert(removal_rows(owned@) =~= owned_rows(all.take(0), operation@));
    while i < rows.len()
        invariant
            i <= rows.len(),
            all == removal_rows(rows@),
            removal_rows(owned@) == owned_rows(all.take(i as int), operation@),
            forall|j: int| 0 <= j < owned.len() ==> (#[trigger] owned@[j]).removed_at_ms is Some,
        decreases rows.len() - i,
    {
        assert(all.take(i + 1).drop_last() =~= all.take(i as int));
        assert(all.take(i + 1).last() == rows@[i as int]@);
        let is_owned: bool = match &rows[i].removed_operation {
            Some(owner) => rows[i].removed_at_ms.is_some() && same_text(owner, operation),
            None => false,
        };
        if is_owned {
            let row: RemovalRow = RemovalRow {
                photo_id: rows[i].photo_id.clone(),
                selection: rows[i].selection.clone(),
                removed_at_ms: rows[i].removed_at_ms,
                removed_operation: clone_opt_text(&rows[i].removed_operation),
            };
            assert(removal_rows(owned@.push(row)) =~= removal_rows(owned@).push(row@));
            owned.push(row);
        }
        i = i + 1;
    }
    assert(all.take(all.len() as int) =~= all);
    owned
}

fn list_owned(rows: &Vec<RemovalRow>, operation: &String) -> (requests: Vec<RestoreRequest>)
    ensures
        requests_view(requests@) == owned_by(removal_rows(rows@), operation@),
{
    let owned: Vec<RemovalRow> = collect_owned(rows, operation);
    let ghost views = removal_rows(owned@);
    let ghost all = owned_keys(views);
    let mut keys: Vec<SortKey> = Vec::new();
    let mut i: usize = 0;
    while i < owned.len()
        invariant
            i <= owned.len(),
            views == removal_rows(owned@),
            all == owned_keys(views),
            keys_view(keys@) == all.take(i as int),
            forall|j: int| 0 <= j < owned.len() ==> (#[trigger] owned@[j]).removed_at_ms is Some,
        decreases owned.len() - i,
    {
        let marker: i64 = match owned[i].removed_at_ms {
            Some(marker) => marker,
            None => i64::MIN,
        };
        let rank: u64 = (marker as i128 - i64::MIN as i128) as u64;
        let key: SortKey = SortKey { rank, texts: vec![owned[i].photo_id.clone()] };
        proof {
            assert(owned@[i as int].removed_at_ms is Some);
            assert(key@.texts =~= all[i as int].texts);
            assert(keys_view(keys@.push(key)) =~= keys_view(keys@).push(key@));
            assert(all.take(i + 1) =~= all.take(i as int).push(all[i as int]));
        }
        keys.push(key);
        i = i + 1;
    }
    assert(all.take(all.len() as int) =~= all);
    assert(keys.len() == keys_view(keys@).len());
    let order: Vec<usize> = sorted_rows(&keys);
    let mut requests: Vec<RestoreRequest> = Vec::new();
    let mut k: usize = 0;
    while k < order.len()
        invariant
            k <= order.len(),
            order.len() == owned.len(),
            views == removal_rows(owned@),
            rows_view(order@) == sort_order(owned_keys(views), views.len()),
            forall|j: int| 0 <= j < order.len() ==> (#[trigger] order@[j]) < owned.len(),
            requests.len() == k,
            forall|j: int|
                0 <= j < k ==> (#[trigger] requests@[j]).expected is None
                    && requests@[j].photo_id@ == views[rows_view(order@)[j]].photo_id,
        decreases order.len() - k,
    {
        assert(rows_view(order@)[k as int] == order@[k as int]);
        requests.push(
            RestoreRequest { photo_id: owned[order[k]].photo_id.clone(), expected: None },
        );
        k = k + 1;
    }
    assert(requests_view(requests@) =~= owned_by(removal_rows(rows@), operation@));
    requests
}

fn list_reviewed(markers: &Vec<PhotoRemovalMarker>) -> (requests: Vec<RestoreRequest>)
    ensures
        requests_view(requests@) == reviewed(markers@),
{
    let mut requests: Vec<RestoreRequest> = Vec::new();
    let mut i: usize = 0;
    while i < markers.len()
        invariant
            i <= markers.len(),
            requests.len() == i,
            forall|j: int|
                0 <= j < i ==> (#[trigger] requests@[j]).photo_id@ == markers@[j].photo_id@
                    && requests@[j].expected == Some(markers@[j].removed_at_ms),
        decreases markers.len() - i,
    {
        requests.push(
            RestoreRequest {
                photo_id: markers[i].photo_id.clone(),
                expected: Some(markers[i].removed_at_ms),
            },
        );
        i = i + 1;
    }
    assert(requests_view(requests@) =~= reviewed(markers@));
    requests
}

fn index_of_photo(rows: &Vec<RemovalRow>, id: &String) -> (index: Option<usize>)
    ensures
        match index {
            Some(i) => first_index(removal_ids(removal_rows(rows@)), id@) == Some(i as int) && i
                < rows.len(),
            None => first_index(removal_ids(removal_rows(rows@)), id@) is None,
        },
{
    let ghost ids = removal_ids(removal_rows(rows@));
    let mut i: usize = 0;
    while i < rows.len()
        invariant
            i <= rows.len(),
            ids == removal_ids(removal_rows(rows@)),
            forall|j: int| 0 <= j < i ==> ids[j] != id@,
        decreases rows.len() - i,
    {
        assert(ids[i as int] == rows@[i as int].photo_id@);
        if same_text(&rows[i].photo_id, id) {
            proof {
                lemma_first_index(ids, id@, i as int);
            }
            return Some(i);
        }
        i = i + 1;
    }
    proof {
        lemma_first_index_absent(ids, id@);
    }
    None
}

/// A decided restoration: the stored rows after it and the answer.
#[derive(Clone, Debug, PartialEq, Eq)]
pub struct RestoreChange {
    pub rows: Vec<RemovalRow>,
    pub result: PhotoRestorationResult,
}

/// What a restoration decides.
pub open spec fn restore_decided(
    rows: Seq<RemovalView>,
    restoration: PhotoRestoration,
    change: RestoreChange,
) -> bool {
    let end = restore_after(rows, requests_of(rows, restoration), named_operations(restoration));
    &&& removal_rows(change.rows@) == end.rows
    &&& texts(change.result.restored@) == end.restored
    &&& texts(change.result.changed_elsewhere@) == end.changed
    &&& texts(change.result.missing@) == end.missing
    &&& change.result.counts.restored == end.restored.len()
    &&& change.result.counts.changed_elsewhere == end.changed.len()
    &&& change.result.counts.missing == end.missing.len()
    &&& remainders_told(change.result.operations@, end.touched, end.rows)
}

/// Decides a restoration on the rows of the requested Photos and of every Photo
/// that one of their operations removed.
pub fn restore_photos(rows: &Vec<RemovalRow>, restoration: &PhotoRestoration) -> (change:
    RestoreChange)
    ensures
        restore_decided(removal_rows(rows@), *restoration, change),
{
    let ghost start = removal_rows(rows@);
    let ghost named = named_operations(*restoration);
    let mut touched: Vec<String> = Vec::new();
    let requests: Vec<RestoreRequest>;
    match restoration {
        PhotoRestoration::Operation(operation) => {
            insert_ascending(&mut touched, operation);
            requests = list_owned(rows, operation);
        },
        PhotoRestoration::Photos(markers) => {
            requests = list_reviewed(markers);
        },
    }
    let ghost wanted = requests_view(requests@);
    let mut next: Vec<RemovalRow> = clone_removal_rows(rows);
    let mut restored: Vec<String> = Vec::new();
    let mut changed: Vec<String> = Vec::new();
    let mut missing: Vec<String> = Vec::new();
    let mut k: usize = 0;
    proof {
        assert(texts(restored@) =~= Seq::empty());
        assert(texts(changed@) =~= Seq::empty());
        assert(texts(missing@) =~= Seq::empty());
    }
    while k < requests.len()
        invariant
            k <= requests.len(),
            start == removal_rows(rows@),
            wanted == requests_view(requests@),
            ({
                let now = restore_after(start, wanted.take(k as int), named);
                &&& now.rows == removal_rows(next@)
                &&& now.restored == texts(restored@)
                &&& now.changed == texts(changed@)
                &&& now.missing == texts(missing@)
                &&& forall|x: Seq<char>| #[trigger]
                    texts(touched@).contains(x) <==> now.touched.contains(x)
            }),
            ascending(texts(touched@)),
        decreases requests.len() - k,
    {
        let ghost taken = wanted.take(k + 1);
        let request: &RestoreRequest = &requests[k];
        let id: &String = &request.photo_id;
        proof {
            assert(taken.drop_last() =~= wanted.take(k as int));
            assert(taken.last() == (id@, request.expected));
            lemma_texts_push(restored@, *id);
            lemma_texts_push(changed@, *id);
            lemma_texts_push(missing@, *id);
        }
        match index_of_photo(&next, id) {
            None => {
                missing.push(id.clone());
            },
            Some(at) => {
                let fits: bool = match (next[at].removed_at_ms, request.expected) {
                    (None, _) => false,
                    (Some(_), None) => true,
                    (Some(current), Some(expected)) => current == expected,
                };
                if !fits {
                    changed.push(id.clone());
                } else {
                    match &next[at].removed_operation {
                        Some(operation) => {
                            insert_ascending(&mut touched, operation);
                        },
                        None => {},
                    }
                    let row: RemovalRow = RemovalRow {
                        photo_id: next[at].photo_id.clone(),
                        selection: next[at].selection.clone(),
                        removed_at_ms: None,
                        removed_operation: None,
                    };
                    let ghost before = removal_rows(next@);
                    next[at] = row;
                    assert(removal_rows(next@) =~= before.update(at as int, row@));
                    restored.push(id.clone());
                }
            },
        }
        k = k + 1;
    }
    assert(wanted.take(wanted.len() as int) =~= wanted);
    let operations: Vec<PhotoOperationRemainder> = operation_remainders(&next, &touched);
    let counts: PhotoRestorationCounts = PhotoRestorationCounts {
        restored: restored.len(),
        changed_elsewhere: changed.len(),
        missing: missing.len(),
    };
    assert(texts(restored@).len() == restored.len());
    assert(texts(changed@).len() == changed.len());
    assert(texts(missing@).len() == missing.len());
    RestoreChange {
        rows: next,
        result: PhotoRestorationResult {
            restored,
            counts,
            changed_elsewhere: changed,
            missing,
            operations,
        },
    }
}

/// A restoration gives every Photo that it asks for exactly one outcome.
pub proof fn law_restore_partitions_the_request(
    rows: Seq<RemovalView>,
    requests: Seq<(Seq<char>, Option<i64>)>,
    named: Set<Seq<char>>,
)
    ensures
        ({
            let end = restore_after(rows, requests, named);
            &&& end.restored.len() + end.changed.len() + end.missing.len() == requests.len()
            &&& end.rows.len() == rows.len()
            &&& removal_ids(end.rows) == removal_ids(rows)
        }),
    decreases requests.len(),
{
    if requests.len() > 0 {
        law_restore_partitions_the_request(rows, requests.drop_last(), named);
        let before = restore_after(rows, requests.drop_last(), named);
        lemma_first_index_found(removal_ids(before.rows), requests.last().0);
        if let Some(i) = first_index(removal_ids(before.rows), requests.last().0) {
            assert(before.rows[i].photo_id == removal_ids(before.rows)[i]);
        }
        assert(removal_ids(restore_after(rows, requests, named).rows) =~= removal_ids(
            before.rows,
        ));
    }
}

/// A restoration never touches a removal that was not reviewed: a row is as it
/// was, or it is cleared and its marker was the one that a request named for its
/// Photo (or a request for the Photo named no marker).
pub proof fn law_restore_clears_only_reviewed_removals(
    rows: Seq<RemovalView>,
    requests: Seq<(Seq<char>, Option<i64>)>,
    named: Set<Seq<char>>,
    i: int,
)
    requires
        0 <= i < rows.len(),
    ensures
        ({
            let after = restore_after(rows, requests, named).rows[i];
            after == rows[i] || (after == cleared(rows[i]) && rows[i].removed_at is Some
                && exists|k: int|
                0 <= k < requests.len() && (#[trigger] requests[k]).0 == rows[i].photo_id && (
                requests[k].1 is None || requests[k].1 == rows[i].removed_at))
        }),
    decreases requests.len(),
{
    if requests.len() > 0 {
        let front = requests.drop_last();
        law_restore_clears_only_reviewed_removals(rows, front, named, i);
        law_restore_partitions_the_request(rows, front, named);
        let before = restore_after(rows, front, named);
        let (id, expected) = requests.last();
        lemma_first_index_found(removal_ids(before.rows), id);
        if before.rows[i] != rows[i] {
            let k = choose|k: int|
                0 <= k < front.len() && (#[trigger] front[k]).0 == rows[i].photo_id && (front[k].1
                    is None || front[k].1 == rows[i].removed_at);
            assert(requests[k] == front[k]);
        }
        if let Some(at) = first_index(removal_ids(before.rows), id) {
            if at == i {
                assert(removal_ids(before.rows)[i] == removal_ids(rows)[i]);
                assert(requests[requests.len() - 1] == (id, expected));
            }
        }
    }
}

/// A superseded marker restores nothing: a request that names another marker than
/// the Photo's current one is reported as changed elsewhere, and the rows stay.
pub proof fn law_superseded_markers_restore_nothing(
    rows: Seq<RemovalView>,
    id: Seq<char>,
    marker: i64,
    named: Set<Seq<char>>,
)
    requires
        first_index(removal_ids(rows), id) matches Some(i) && rows[i].removed_at != Some(marker),
    ensures
        ({
            let end = restore_after(rows, seq![(id, Some(marker))], named);
            end.rows == rows && end.restored.len() == 0 && end.changed == seq![id] && end.touched
                == named
        }),
{
    let one = seq![(id, Some(marker))];
    assert(one.drop_last() =~= Seq::<(Seq<char>, Option<i64>)>::empty());
    assert(one.last() == (id, Some(marker)));
    reveal_with_fuel(restore_after, 2);
    assert(Seq::<Seq<char>>::empty().push(id) =~= seq![id]);
}

spec fn is_removed(rows: Seq<RemovalView>, id: Seq<char>) -> bool {
    exists|i: int|
        0 <= i < rows.len() && (#[trigger] rows[i]).photo_id == id && rows[i].removed_at is Some
}

proof fn lemma_restored_rows(
    rows: Seq<RemovalView>,
    requests: Seq<(Seq<char>, Option<i64>)>,
    named: Set<Seq<char>>,
    i: int,
)
    requires
        removal_ids(rows).no_duplicates(),
        forall|k: int| 0 <= k < requests.len() ==> (#[trigger] requests[k]).1 is None,
        0 <= i < rows.len(),
    ensures
        restore_after(rows, requests, named).rows.len() == rows.len(),
        removal_ids(restore_after(rows, requests, named).rows) == removal_ids(rows),
        restore_after(rows, requests, named).rows[i] == (if requests.contains(
            (rows[i].photo_id, None::<i64>),
        ) && rows[i].removed_at is Some {
            cleared(rows[i])
        } else {
            rows[i]
        }),
    decreases requests.len(),
{
    if requests.len() > 0 {
        let front = requests.drop_last();
        assert forall|k: int| 0 <= k < front.len() implies (#[trigger] front[k]).1 is None by {
            assert(front[k] == requests[k]);
        }
        lemma_restored_rows(rows, front, named, i);
        let before = restore_after(rows, front, named);
        let after = restore_after(rows, requests, named);
        let (id, expected) = requests.last();
        assert(requests[requests.len() - 1] == (id, None::<i64>));
        assert(front.push(requests.last()) =~= requests);
        lemma_first_index_found(removal_ids(before.rows), id);
        assert(removal_ids(rows)[i] == rows[i].photo_id);
        assert(removal_ids(before.rows)[i] == rows[i].photo_id);
        if rows[i].photo_id == id {
            assert(removal_ids(before.rows).contains(id));
            let at = first_index(removal_ids(before.rows), id)->0;
            assert(removal_ids(before.rows)[at] == id);
            assert(at == i);
        } else if requests.contains((rows[i].photo_id, None::<i64>)) {
            let k = choose|k: int|
                0 <= k < requests.len() && requests[k] == (rows[i].photo_id, None::<i64>);
            assert(front[k] == requests[k]);
            assert(front.contains((rows[i].photo_id, None::<i64>)));
        }
        if front.contains((rows[i].photo_id, None::<i64>)) {
            let k = choose|k: int|
                0 <= k < front.len() && front[k] == (rows[i].photo_id, None::<i64>);
            assert(requests[k] == front[k]);
        }
        assert(removal_ids(after.rows) =~= removal_ids(before.rows)) by {
            if let Some(at) = first_index(removal_ids(before.rows), id) {
                assert(before.rows[at].photo_id == removal_ids(before.rows)[at]);
            }
        }
    }
}

proof fn lemma_owned_rows(rows: Seq<RemovalView>, operation: Seq<char>, row: RemovalView)
    ensures
        owned_rows(rows, operation).contains(row) <==> rows.contains(row) && row.removed_at is Some
            && row.operation == Some(operation),
    decreases rows.len(),
{
    if rows.len() > 0 {
        let front = rows.drop_last();
        lemma_owned_rows(front, operation, row);
        let before = owned_rows(front, operation);
        let after = owned_rows(rows, operation);
        assert(rows[rows.len() - 1] == rows.last());
        if rows.contains(row) && row != rows.last() {
            let k = choose|k: int| 0 <= k < rows.len() && rows[k] == row;
            assert(front[k] == row);
        }
        if front.contains(row) {
            let k = choose|k: int| 0 <= k < front.len() && front[k] == row;
            assert(rows[k] == row);
        }
        if after != before {
            assert(after == before.push(rows.last()));
            assert(after[after.len() - 1] == rows.last());
            if before.contains(row) {
                let k = choose|k: int| 0 <= k < before.len() && before[k] == row;
                assert(after[k] == row);
            }
            if after.contains(row) && row != rows.last() {
                let k = choose|k: int| 0 <= k < after.len() && after[k] == row;
                assert(before[k] == row);
            }
        }
    } else {
        assert(owned_rows(rows, operation).len() == 0);
    }
}

proof fn lemma_owned_by(rows: Seq<RemovalView>, operation: Seq<char>, i: int)
    requires
        removal_ids(rows).no_duplicates(),
        0 <= i < rows.len(),
    ensures
        owned_by(rows, operation).contains((rows[i].photo_id, None::<i64>)) <==> rows[i].removed_at
            is Some && rows[i].operation == Some(operation),
{
    let owned = owned_rows(rows, operation);
    let order = sort_order(owned_keys(owned), owned.len());
    let list = owned_by(rows, operation);
    law_sorting_orders_every_row(owned_keys(owned), owned.len());
    lemma_owned_rows(rows, operation, rows[i]);
    assert(rows.contains(rows[i]));
    if rows[i].removed_at is Some && rows[i].operation == Some(operation) {
        let k = choose|k: int| 0 <= k < owned.len() && owned[k] == rows[i];
        assert(order.contains(k));
        let at = choose|at: int| 0 <= at < order.len() && order[at] == k;
        assert(list[at] == (rows[i].photo_id, None::<i64>));
    }
    if list.contains((rows[i].photo_id, None::<i64>)) {
        let at = choose|at: int|
            0 <= at < list.len() && list[at] == (rows[i].photo_id, None::<i64>);
        let row = owned[order[at]];
        assert(owned.contains(row));
        lemma_owned_rows(rows, operation, row);
        let j = choose|j: int| 0 <= j < rows.len() && rows[j] == row;
        assert(removal_ids(rows)[j] == removal_ids(rows)[i]);
    }
}

/// Undoing an operation restores the Library: restoring what an operation owns
/// leaves every row as it was before the operation removed anything.
pub proof fn law_undoing_a_removal_restores_the_library(
    rows: Seq<RemovalView>,
    ids: Seq<Seq<char>>,
    operation: Seq<char>,
    marker: i64,
)
    requires
        removal_ids(rows).no_duplicates(),
        forall|i: int|
            0 <= i < rows.len() ==> (#[trigger] rows[i]).operation != Some(operation) && (
            rows[i].removed_at is None ==> rows[i].operation is None),
        removal_after(rows, ids, operation, marker) is Some,
    ensures
        ({
            let removed = removal_after(rows, ids, operation, marker)->0;
            let end = restore_after(
                removed.rows,
                owned_by(removed.rows, operation),
                set![operation],
            );
            end.rows == rows && end.changed.len() == 0 && end.missing.len() == 0
        }),
{
    let removed = removal_after(rows, ids, operation, marker)->0;
    let requests = owned_by(removed.rows, operation);
    let named = set![operation];
    let end = restore_after(removed.rows, requests, named);
    assert forall|i: int| 0 <= i < rows.len() implies end.rows[i] == rows[i] by {
        lemma_removal_rows(rows, ids, operation, marker, i);
        lemma_owned_by(removed.rows, operation, i);
        lemma_restored_rows(removed.rows, requests, named, i);
        assert(rows[i].operation != Some(operation));
    }
    law_restore_partitions_the_request(removed.rows, requests, named);
    lemma_removal_keeps_ids(rows, ids, operation, marker);
    assert(end.rows =~= rows);
    assert forall|k: int| 0 <= k < requests.len() implies is_removed(
        removed.rows,
        (#[trigger] requests[k]).0,
    ) by {
        let owned = owned_rows(removed.rows, operation);
        law_sorting_orders_every_row(owned_keys(owned), owned.len());
        let order = sort_order(owned_keys(owned), owned.len());
        let row = owned[order[k]];
        assert(owned.contains(row));
        lemma_owned_rows(removed.rows, operation, row);
        let j = choose|j: int| 0 <= j < removed.rows.len() && removed.rows[j] == row;
        assert(removed.rows[j].photo_id == requests[k].0);
    }
    lemma_owned_distinct(removed.rows, operation);
    lemma_all_restored(removed.rows, requests, named);
}

proof fn lemma_removal_keeps_ids(
    rows: Seq<RemovalView>,
    ids: Seq<Seq<char>>,
    operation: Seq<char>,
    marker: i64,
)
    requires
        removal_after(rows, ids, operation, marker) is Some,
    ensures
        removal_after(rows, ids, operation, marker)->0.rows.len() == rows.len(),
        removal_ids(removal_after(rows, ids, operation, marker)->0.rows) == removal_ids(rows),
{
    crate::removal::law_removal_partitions_the_request(rows, ids, operation, marker);
}

proof fn lemma_owned_rows_distinct(rows: Seq<RemovalView>, operation: Seq<char>)
    requires
        removal_ids(rows).no_duplicates(),
    ensures
        removal_ids(owned_rows(rows, operation)).no_duplicates(),
    decreases rows.len(),
{
    if rows.len() > 0 {
        let front = rows.drop_last();
        assert(removal_ids(front) =~= removal_ids(rows).drop_last());
        lemma_owned_rows_distinct(front, operation);
        let before = owned_rows(front, operation);
        let after = owned_rows(rows, operation);
        if after != before {
            let was = removal_ids(before);
            let now = removal_ids(after);
            assert forall|a: int, b: int|
                0 <= a < now.len() && 0 <= b < now.len() && a != b implies now[a] != now[b] by {
                if a < was.len() && b < was.len() {
                    assert(was[a] != was[b]);
                } else {
                    let c = if a < was.len() { a } else { b };
                    lemma_owned_rows(front, operation, before[c]);
                    assert(before.contains(before[c]));
                    let j = choose|j: int| 0 <= j < front.len() && front[j] == before[c];
                    assert(removal_ids(rows)[j] != removal_ids(rows)[rows.len() - 1]);
                }
            }
        }
    }
}

proof fn lemma_owned_distinct(rows: Seq<RemovalView>, operation: Seq<char>)
    requires
        removal_ids(rows).no_duplicates(),
    ensures
        forall|a: int, b: int|
            0 <= a < b < owned_by(rows, operation).len() ==> (#[trigger] owned_by(
                rows,
                operation,
            )[a]).0 != (#[trigger] owned_by(rows, operation)[b]).0,
{
    let owned = owned_rows(rows, operation);
    let order = sort_order(owned_keys(owned), owned.len());
    law_sorting_orders_every_row(owned_keys(owned), owned.len());
    lemma_owned_rows_distinct(rows, operation);
    let list = owned_by(rows, operation);
    assert forall|a: int, b: int| 0 <= a < b < list.len() implies (#[trigger] list[a]).0 != (
    #[trigger] list[b]).0 by {
        assert(order[a] != order[b]);
        assert(removal_ids(owned)[order[a]] != removal_ids(owned)[order[b]]);
    }
}

proof fn lemma_all_restored(
    rows: Seq<RemovalView>,
    requests: Seq<(Seq<char>, Option<i64>)>,
    named: Set<Seq<char>>,
)
    requires
        removal_ids(rows).no_duplicates(),
        forall|k: int| 0 <= k < requests.len() ==> (#[trigger] requests[k]).1 is None,
        forall|a: int, b: int|
            0 <= a < b < requests.len() ==> (#[trigger] requests[a]).0 != (#[trigger] requests[b]).0,
        forall|k: int| 0 <= k < requests.len() ==> is_removed(rows, (#[trigger] requests[k]).0),
    ensures
        restore_after(rows, requests, named).changed.len() == 0,
        restore_after(rows, requests, named).missing.len() == 0,
    decreases requests.len(),
{
    if requests.len() > 0 {
        let front = requests.drop_last();
        assert forall|k: int| 0 <= k < front.len() implies (#[trigger] front[k]).1 is None by {
            assert(front[k] == requests[k]);
        }
        assert forall|k: int| 0 <= k < front.len() implies is_removed(
            rows,
            (#[trigger] front[k]).0,
        ) by {
            assert(front[k] == requests[k]);
        }
        assert forall|a: int, b: int| 0 <= a < b < front.len() implies (#[trigger] front[a]).0 != (
        #[trigger] front[b]).0 by {
            assert(front[a] == requests[a] && front[b] == requests[b]);
        }
        lemma_all_restored(rows, front, named);
        let last = requests[requests.len() - 1];
        assert(is_removed(rows, last.0));
        let i = choose|i: int|
            0 <= i < rows.len() && (#[trigger] rows[i]).photo_id == last.0 && rows[i].removed_at
                is Some;
        lemma_restored_rows(rows, front, named, i);
        let before = restore_after(rows, front, named);
        if front.contains((rows[i].photo_id, None::<i64>)) {
            let k = choose|k: int|
                0 <= k < front.len() && front[k] == (rows[i].photo_id, None::<i64>);
            assert(requests[k].0 == requests[requests.len() - 1].0);
        }
        lemma_first_index_found(removal_ids(before.rows), last.0);
        assert(removal_ids(before.rows)[i] == removal_ids(rows)[i]);
        assert(removal_ids(before.rows).contains(last.0));
        let at = first_index(removal_ids(before.rows), last.0)->0;
        assert(removal_ids(before.rows)[at] == removal_ids(before.rows)[i]);
        assert(at == i);
    }
}

spec fn wants(request: (Seq<char>, Option<i64>), row: RemovalView) -> bool {
    request.0 == row.photo_id && row.removed_at is Some && (request.1 is None || request.1
        == row.removed_at)
}

proof fn lemma_held<T>(list: Seq<T>, last: T, x: T)
    ensures
        list.contains(x) ==> list.push(last).contains(x),
        list.push(last).contains(last),
{
    let all = list.push(last);
    assert(all[list.len() as int] == last);
    if list.contains(x) {
        let i = choose|i: int| 0 <= i < list.len() && list[i] == x;
        assert(all[i] == x);
    }
}

proof fn lemma_restore_row(
    rows: Seq<RemovalView>,
    requests: Seq<(Seq<char>, Option<i64>)>,
    named: Set<Seq<char>>,
    i: int,
)
    requires
        removal_ids(rows).no_duplicates(),
        0 <= i < rows.len(),
    ensures
        ({
            let end = restore_after(rows, requests, named);
            let wanted = exists|k: int|
                0 <= k < requests.len() && wants(#[trigger] requests[k], rows[i]);
            &&& end.rows.len() == rows.len()
            &&& wanted ==> end.rows[i] == cleared(rows[i]) && end.restored.contains(
                rows[i].photo_id,
            )
            &&& wanted && rows[i].operation is Some ==> end.touched.contains(rows[i].operation->0)
            &&& !wanted ==> end.rows[i] == rows[i]
            &&& !wanted && (exists|k: int|
                0 <= k < requests.len() && (#[trigger] requests[k]).0 == rows[i].photo_id)
                ==> end.changed.contains(rows[i].photo_id)
            &&& named.subset_of(end.touched)
        }),
    decreases requests.len(),
{
    if requests.len() > 0 {
        let front = requests.drop_last();
        let last = requests.last();
        let before = restore_after(rows, front, named);
        let end = restore_after(rows, requests, named);
        let own = rows[i].photo_id;
        lemma_restore_row(rows, front, named, i);
        law_restore_partitions_the_request(rows, front, named);
        assert(removal_ids(before.rows) == removal_ids(rows));
        assert(removal_ids(rows)[i] == own);
        lemma_first_index_found(removal_ids(rows), last.0);
        lemma_held(before.restored, last.0, own);
        lemma_held(before.changed, last.0, own);
        assert(last == requests[requests.len() - 1]);
        assert forall|k: int| 0 <= k < front.len() implies front[k] == #[trigger] requests[k] by {}
        let wanted_before = exists|k: int|
            0 <= k < front.len() && wants(#[trigger] front[k], rows[i]);
        let wanted = exists|k: int|
            0 <= k < requests.len() && wants(#[trigger] requests[k], rows[i]);
        if wanted_before {
            let k = choose|k: int| 0 <= k < front.len() && wants(#[trigger] front[k], rows[i]);
            assert(wants(requests[k], rows[i]));
        }
        if wanted {
            let k = choose|k: int| 0 <= k < requests.len() && wants(#[trigger] requests[k], rows[i]);
            if k < front.len() {
                assert(wants(front[k], rows[i]));
            } else {
                assert(wants(last, rows[i]));
            }
        }
        if wants(last, rows[i]) {
            assert(wants(requests[requests.len() - 1], rows[i]));
        }
        if exists|k: int| 0 <= k < requests.len() && (#[trigger] requests[k]).0 == own {
            let k = choose|k: int| 0 <= k < requests.len() && (#[trigger] requests[k]).0 == own;
            if k < front.len() {
                assert(front[k].0 == own);
            }
        }
        if last.0 == own {
            assert(removal_ids(rows).contains(own));
            let j = first_index(removal_ids(rows), own)->0;
            assert(i == j);
        }
    }
}

proof fn lemma_restore_missing(
    rows: Seq<RemovalView>,
    requests: Seq<(Seq<char>, Option<i64>)>,
    named: Set<Seq<char>>,
    k: int,
)
    requires
        0 <= k < requests.len(),
        !removal_ids(rows).contains(requests[k].0),
    ensures
        restore_after(rows, requests, named).missing.contains(requests[k].0),
    decreases requests.len(),
{
    let front = requests.drop_last();
    let before = restore_after(rows, front, named);
    law_restore_partitions_the_request(rows, front, named);
    lemma_first_index_found(removal_ids(rows), requests.last().0);
    lemma_held(before.missing, requests.last().0, requests[k].0);
    if k < front.len() {
        assert(front[k] == requests[k]);
        lemma_restore_missing(rows, front, named, k);
    }
}

proof fn lemma_apart(rows: Seq<RemovalRow>)
    requires
        forall|a: int, b: int|
            0 <= a < b < rows.len() ==> (#[trigger] rows[a]).photo_id@ != (
            #[trigger] rows[b]).photo_id@,
    ensures
        removal_ids(removal_rows(rows)).no_duplicates(),
{
    let ids = removal_ids(removal_rows(rows));
    assert forall|a: int, b: int|
        0 <= a < ids.len() && 0 <= b < ids.len() && a != b implies ids[a] != ids[b] by {
        assert(ids[a] == rows[a].photo_id@);
        assert(ids[b] == rows[b].photo_id@);
    }
}

/// Restoring reviewed Photos brings back each Photo that still carries the marker under
/// which it was reviewed, with its selection as it was, and tells it. A Photo that is
/// not removed, or was removed again since, stays as it is and is told as changed
/// elsewhere; one that is not stored is told as missing; every other Photo stays.
pub proof fn law_reviewed_photos_are_restored(
    rows: Seq<RemovalRow>,
    markers: Vec<PhotoRemovalMarker>,
    change: RestoreChange,
    i: int,
    k: int,
)
    requires
        restore_decided(removal_rows(rows), PhotoRestoration::Photos(markers), change),
        0 <= i < rows.len(),
        0 <= k < markers.len(),
        forall|a: int, b: int|
            0 <= a < b < rows.len() ==> (#[trigger] rows[a]).photo_id@ != (
            #[trigger] rows[b]).photo_id@,
        forall|a: int, b: int|
            0 <= a < b < markers.len() ==> (#[trigger] markers@[a]).photo_id@ != (
            #[trigger] markers@[b]).photo_id@,
    ensures
        ({
            let before = rows[i];
            let after = change.rows@[i];
            let named = markers@[k].photo_id@ == before.photo_id@;
            let matching = before.removed_at_ms == Some(markers@[k].removed_at_ms);
            &&& change.rows.len() == rows.len()
            &&& after.photo_id@ == before.photo_id@
            &&& after.selection@ == before.selection@
            &&& named && matching ==> {
                &&& after.removed_at_ms is None
                &&& after.removed_operation is None
                &&& texts(change.result.restored@).contains(before.photo_id@)
            }
            &&& named && !matching ==> {
                &&& after.removed_at_ms == before.removed_at_ms
                &&& opt_text(after.removed_operation) == opt_text(before.removed_operation)
                &&& texts(change.result.changed_elsewhere@).contains(before.photo_id@)
            }
            &&& (forall|m: int|
                0 <= m < markers.len() ==> (#[trigger] markers@[m]).photo_id@ != before.photo_id@)
                ==> after.removed_at_ms == before.removed_at_ms && opt_text(
                after.removed_operation,
            ) == opt_text(before.removed_operation)
            &&& (forall|j: int|
                0 <= j < rows.len() ==> (#[trigger] rows[j]).photo_id@ != markers@[k].photo_id@)
                ==> texts(change.result.missing@).contains(markers@[k].photo_id@)
            &&& change.result.restored.len() + change.result.changed_elsewhere.len()
                + change.result.missing.len() == markers.len()
            &&& change.result.counts.restored == change.result.restored.len()
            &&& change.result.counts.changed_elsewhere == change.result.changed_elsewhere.len()
            &&& change.result.counts.missing == change.result.missing.len()
        }),
{
    let views = removal_rows(rows);
    let requests = reviewed(markers@);
    let named = Set::<Seq<char>>::empty();
    lemma_apart(rows);
    lemma_restore_row(views, requests, named, i);
    law_restore_partitions_the_request(views, requests, named);
    assert(views[i] == rows[i]@);
    assert(removal_rows(change.rows@).len() == change.rows.len());
    assert(removal_rows(change.rows@)[i] == change.rows@[i]@);
    assert(requests[k] == (markers@[k].photo_id@, Some(markers@[k].removed_at_ms)));
    assert(texts(change.result.restored@).len() == change.result.restored.len());
    assert(texts(change.result.changed_elsewhere@).len() == change.result.changed_elsewhere.len());
    assert(texts(change.result.missing@).len() == change.result.missing.len());
    if markers@[k].photo_id@ == rows[i].photo_id@ {
        if rows[i].removed_at_ms == Some(markers@[k].removed_at_ms) {
            assert(wants(requests[k], views[i]));
        } else {
            assert forall|m: int| 0 <= m < requests.len() implies !wants(
                #[trigger] requests[m],
                views[i],
            ) by {
                if m != k && markers@[m].photo_id@ == rows[i].photo_id@ {
                    assert(markers@[m].photo_id@ == markers@[k].photo_id@);
                }
            }
            assert(requests[k].0 == views[i].photo_id);
        }
    }
    if forall|m: int|
        0 <= m < markers.len() ==> (#[trigger] markers@[m]).photo_id@ != rows[i].photo_id@ {
        assert forall|m: int| 0 <= m < requests.len() implies !wants(
            #[trigger] requests[m],
            views[i],
        ) by {
            assert(requests[m].0 == markers@[m].photo_id@);
        }
    }
    if forall|j: int|
        0 <= j < rows.len() ==> (#[trigger] rows[j]).photo_id@ != markers@[k].photo_id@ {
        if removal_ids(views).contains(requests[k].0) {
            let j = choose|j: int|
                0 <= j < removal_ids(views).len() && removal_ids(views)[j] == requests[k].0;
            assert(rows[j].photo_id@ == markers@[k].photo_id@);
        }
        lemma_restore_missing(views, requests, named, k);
    }
}

proof fn lemma_owned(rows: Seq<RemovalView>, operation: Seq<char>, i: int)
    requires
        0 <= i < rows.len(),
        rows[i].removed_at is Some,
        rows[i].operation == Some(operation),
    ensures
        owned_rows(rows, operation).contains(rows[i]),
    decreases rows.len(),
{
    let front = rows.drop_last();
    let before = owned_rows(front, operation);
    lemma_held(before, rows.last(), rows[i]);
    if i < front.len() {
        assert(front[i] == rows[i]);
        lemma_owned(front, operation, i);
    }
}

proof fn lemma_owned_from(rows: Seq<RemovalView>, operation: Seq<char>, k: int)
    requires
        0 <= k < owned_rows(rows, operation).len(),
    ensures
        rows.contains(owned_rows(rows, operation)[k]),
        owned_rows(rows, operation)[k].removed_at is Some,
        owned_rows(rows, operation)[k].operation == Some(operation),
    decreases rows.len(),
{
    let front = rows.drop_last();
    let before = owned_rows(front, operation);
    let row = owned_rows(rows, operation)[k];
    if k < before.len() {
        lemma_owned_from(front, operation, k);
        assert(row == before[k]);
        let i = choose|i: int| 0 <= i < front.len() && front[i] == row;
        assert(rows[i] == row);
    } else {
        assert(rows[rows.len() - 1] == row);
    }
}

/// Restoring an operation brings back exactly the Photos that it removed and that are
/// still removed by it, each with its selection as it was, and tells each of them. Every
/// other Photo stays.
pub proof fn law_operations_are_restored(
    rows: Seq<RemovalRow>,
    operation: String,
    change: RestoreChange,
    i: int,
)
    requires
        restore_decided(removal_rows(rows), PhotoRestoration::Operation(operation), change),
        0 <= i < rows.len(),
        forall|a: int, b: int|
            0 <= a < b < rows.len() ==> (#[trigger] rows[a]).photo_id@ != (
            #[trigger] rows[b]).photo_id@,
    ensures
        ({
            let before = rows[i];
            let after = change.rows@[i];
            let owned = before.removed_at_ms is Some && opt_text(before.removed_operation) == Some(
                operation@,
            );
            &&& change.rows.len() == rows.len()
            &&& after.photo_id@ == before.photo_id@
            &&& after.selection@ == before.selection@
            &&& owned ==> after.removed_at_ms is None && after.removed_operation is None && texts(
                change.result.restored@,
            ).contains(before.photo_id@)
            &&& !owned ==> after.removed_at_ms == before.removed_at_ms && opt_text(
                after.removed_operation,
            ) == opt_text(before.removed_operation)
            &&& exists|m: int|
                0 <= m < change.result.operations.len() && (
                #[trigger] change.result.operations@[m]).operation_id@ == operation@
        }),
{
    let views = removal_rows(rows);
    let requests = owned_by(views, operation@);
    let named = set![operation@];
    let owned = owned_rows(views, operation@);
    let keys = owned_keys(owned);
    let order = sort_order(keys, owned.len());
    lemma_apart(rows);
    lemma_restore_row(views, requests, named, i);
    law_sorting_orders_every_row(keys, owned.len());
    assert(views[i] == rows[i]@);
    assert(removal_rows(change.rows@).len() == change.rows.len());
    assert(removal_rows(change.rows@)[i] == change.rows@[i]@);
    if views[i].removed_at is Some && views[i].operation == Some(operation@) {
        lemma_owned(views, operation@, i);
        let a = choose|a: int| 0 <= a < owned.len() && owned[a] == views[i];
        assert(order.contains(a));
        let k = choose|k: int| 0 <= k < order.len() && order[k] == a;
        assert(requests[k] == (views[i].photo_id, None::<i64>));
        assert(wants(requests[k], views[i]));
    } else {
        assert forall|k: int| 0 <= k < requests.len() implies !wants(
            #[trigger] requests[k],
            views[i],
        ) by {
            let row = owned[order[k]];
            lemma_owned_from(views, operation@, order[k]);
            let j = choose|j: int| 0 <= j < views.len() && views[j] == row;
            assert(removal_ids(views)[j] == row.photo_id);
            assert(removal_ids(views)[i] == views[i].photo_id);
            assert(requests[k].0 == row.photo_id);
        }
    }
    let end = restore_after(views, requests, named);
    assert(named.contains(operation@));
    assert(end.touched.contains(operation@));
    let list = change.result.operations@;
    assert(remainder_ids(list).contains(operation@));
    let m = choose|m: int| 0 <= m < remainder_ids(list).len() && remainder_ids(list)[m]
        == operation@;
    assert(list[m].operation_id@ == operation@);
}

/// What an operation still holds removed is counted: one Photo more adds one where it is
/// removed by that operation, and nothing otherwise.
pub proof fn law_remainders_are_counted(
    rows: Seq<RemovalView>,
    row: RemovalView,
    operation: Seq<char>,
)
    ensures
        remaining(Seq::<RemovalView>::empty(), operation) == 0,
        row.removed_at is Some && row.operation == Some(operation) ==> remaining(
            rows.push(row),
            operation,
        ) == remaining(rows, operation) + 1,
        row.removed_at is None || row.operation != Some(operation) ==> remaining(
            rows.push(row),
            operation,
        ) == remaining(rows, operation),
{
    assert(rows.push(row).drop_last() =~= rows);
    assert(rows.push(row).last() == row);
}

} // verus!
