//! Removing reviewed Photos from the Library and restoring them.
use crate::codec::{
    law_selections_are_stored_by_name, parse_selection_state, selection_of, SelectionState,
};
use crate::error::MutationError;
use crate::numeral::{law_signed_decimal_reads_back, parse_i64, read_i64, signed_decimal};
use crate::text::{
    clone_opt_text, first_index, lemma_first_index, lemma_first_index_absent,
    lemma_first_index_found, lemma_texts_push, opt_text, same_text, texts,
};
use vstd::prelude::*;
use vstd::string::*;

verus! {

/// A request to remove Photos under one operation.
#[derive(Clone, Debug, PartialEq, Eq)]
pub struct PhotoRemovalMutation {
    pub photo_ids: Vec<String>,
    pub operation_id: String,
}

/// How many Photos of a removal had each outcome.
#[derive(Clone, Copy, Debug, PartialEq, Eq, Structural)]
pub struct PhotoRemovalCounts {
    pub removed: usize,
    pub changed_elsewhere: usize,
    pub missing: usize,
    pub already_removed: usize,
}

/// The answer to a removal: each Photo of the request in exactly one list.
#[derive(Clone, Debug, PartialEq, Eq)]
pub struct PhotoRemovalResult {
    pub operation_id: String,
    pub counts: PhotoRemovalCounts,
    pub removed: Vec<String>,
    pub changed_elsewhere: Vec<String>,
    pub missing: Vec<String>,
    pub already_removed: Vec<String>,
}

/// A removed Photo and the marker of the removal that was reviewed.
#[derive(Clone, Debug, PartialEq, Eq)]
pub struct PhotoRemovalMarker {
    pub photo_id: String,
    pub removed_at_ms: i64,
}

/// A request to restore what an operation still owns, or reviewed removals.
#[derive(Clone, Debug, PartialEq, Eq)]
pub enum PhotoRestoration {
    Operation(String),
    Photos(Vec<PhotoRemovalMarker>),
}

/// How many Photos of a restoration had each outcome.
#[derive(Clone, Copy, Debug, PartialEq, Eq, Structural)]
pub struct PhotoRestorationCounts {
    pub restored: usize,
    pub changed_elsewhere: usize,
    pub missing: usize,
}

/// How many Photos an operation still owns.
#[derive(Clone, Debug, PartialEq, Eq)]
pub struct PhotoOperationRemainder {
    pub operation_id: String,
    pub removed: usize,
}

/// The answer to a restoration.
#[derive(Clone, Debug, PartialEq, Eq)]
pub struct PhotoRestorationResult {
    pub restored: Vec<String>,
    pub counts: PhotoRestorationCounts,
    pub changed_elsewhere: Vec<String>,
    pub missing: Vec<String>,
    pub operations: Vec<PhotoOperationRemainder>,
}

/// The stored columns of a Photo that removals read and write.
#[derive(Clone, Debug, PartialEq, Eq)]
pub struct RemovalRow {
    pub photo_id: String,
    pub selection: String,
    pub removed_at_ms: Option<i64>,
    pub removed_operation: Option<String>,
}

/// What a [`RemovalRow`] stands for.
pub struct RemovalView {
    pub photo_id: Seq<char>,
    pub selection: Seq<char>,
    pub removed_at: Option<i64>,
    pub operation: Option<Seq<char>>,
}

impl View for RemovalRow {
    type V = RemovalView;

    open spec fn view(&self) -> RemovalView {
        RemovalView {
            photo_id: self.photo_id@,
            selection: self.selection@,
            removed_at: self.removed_at_ms,
            operation: opt_text(self.removed_operation),
        }
    }
}

/// What a list of stored rows stands for.
pub open spec fn removal_rows(rows: Seq<RemovalRow>) -> Seq<RemovalView> {
    Seq::new(rows.len(), |i: int| rows[i]@)
}

/// The Photos of a list of stored rows.
pub open spec fn removal_ids(rows: Seq<RemovalView>) -> Seq<Seq<char>> {
    Seq::new(rows.len(), |i: int| rows[i].photo_id)
}

/// The greatest removal marker that the Library ever assigned: the recorded high
/// water mark, or the greatest marker it still holds when none is recorded.
pub open spec fn high_water(recorded: Option<Seq<char>>, held: Option<i64>) -> int {
    let read = match recorded {
        Some(text) => read_i64(text),
        None => None,
    };
    match read {
        Some(value) => value,
        None => match held {
            Some(value) => value as int,
            None => 0,
        },
    }
}

/// The next removal marker: the clock reading, but above the high water mark
/// while there is a number above it.
pub open spec fn removal_marker(recorded: Option<Seq<char>>, held: Option<i64>, now: int) -> int {
    let above = if high_water(recorded, held) < i64::MAX {
        high_water(recorded, held) + 1
    } else {
        i64::MAX as int
    };
    if now > above {
        now
    } else {
        above
    }
}

/// The next removal marker.
pub fn next_removal_marker(recorded: &Option<String>, held: Option<i64>, now: i64) -> (marker: i64)
    ensures
        marker == removal_marker(opt_text(*recorded), held, now as int),
{
    let read: Option<i64> = match recorded {
        Some(text) => parse_i64(text),
        None => None,
    };
    let mark: i64 = match read {
        Some(value) => value,
        None => match held {
            Some(value) => value,
            None => 0,
        },
    };
    let above: i64 = if mark < i64::MAX {
        mark + 1
    } else {
        i64::MAX
    };
    if now > above {
        now
    } else {
        above
    }
}

/// A marker is above every marker before it, whatever the clock reads: the mark
/// that one removal records is the floor of the next. Only the greatest number
/// of all cannot be passed.
pub proof fn law_markers_never_repeat(
    recorded: Option<Seq<char>>,
    held: Option<i64>,
    held_later: Option<i64>,
    now: int,
    later: int,
)
    requires
        i64::MIN <= now <= i64::MAX,
        i64::MIN <= later <= i64::MAX,
        removal_marker(recorded, held, now) < i64::MAX,
    ensures
        removal_marker(recorded, held, now) > high_water(recorded, held),
        removal_marker(
            Some(signed_decimal(removal_marker(recorded, held, now))),
            held_later,
            later,
        ) > removal_marker(recorded, held, now),
{
    law_signed_decimal_reads_back(removal_marker(recorded, held, now));
}

/// Without a recorded mark, a marker is above every marker that is still held.
pub proof fn law_held_markers_are_a_floor(held: i64, now: int)
    requires
        held < i64::MAX,
    ensures
        removal_marker(None, Some(held), now) > held,
{
}

/// How far a removal has come.
pub struct RemovalProgress {
    pub rows: Seq<RemovalView>,
    pub removed: Seq<Seq<char>>,
    pub changed: Seq<Seq<char>>,
    pub missing: Seq<Seq<char>>,
    pub already: Seq<Seq<char>>,
    pub assigned: bool,
}

/// What a removal comes to, or nothing when a stored value cannot be read. A
/// Photo that the operation removed before is its own result again; one that
/// another operation removed stays with it; one that is not rejected any more
/// stays in the Library.
pub open spec fn removal_after(
    rows: Seq<RemovalView>,
    ids: Seq<Seq<char>>,
    operation: Seq<char>,
    marker: i64,
) -> Option<RemovalProgress>
    decreases ids.len(),
{
    if ids.len() == 0 {
        Some(
            RemovalProgress {
                rows,
                removed: Seq::empty(),
                changed: Seq::empty(),
                missing: Seq::empty(),
                already: Seq::empty(),
                assigned: false,
            },
        )
    } else {
        match removal_after(rows, ids.drop_last(), operation, marker) {
            None => None,
            Some(before) => {
                let id = ids.last();
                match first_index(removal_ids(before.rows), id) {
                    None => Some(RemovalProgress { missing: before.missing.push(id), ..before }),
                    Some(i) => {
                        let row = before.rows[i];
                        if row.removed_at is Some {
                            if row.operation == Some(operation) {
                                Some(
                                    RemovalProgress { removed: before.removed.push(id), ..before },
                                )
                            } else {
                                Some(
                                    RemovalProgress { already: before.already.push(id), ..before },
                                )
                            }
                        } else {
                            match selection_of(row.selection) {
                                None => None,
                                Some(state) => if state != SelectionState::Rejected {
                                    Some(
                                        RemovalProgress {
                                            changed: before.changed.push(id),
                                            ..before
                                        },
                                    )
                                } else {
                                    Some(
                                        RemovalProgress {
                                            rows: before.rows.update(
                                                i,
                                                RemovalView {
                                                    removed_at: Some(marker),
                                                    operation: Some(operation),
                                                    ..row
                                                },
                                            ),
                                            removed: before.removed.push(id),
                                            assigned: true,
                                            ..before
                                        },
                                    )
                                },
                            }
                        }
                    },
                }
            },
        }
    }
}

/// What is read before a removal: the rows of the requested Photos, the recorded
/// high water mark, and the greatest marker that any Photo holds.
#[derive(Clone, Debug, PartialEq, Eq)]
pub struct RemovalFacts {
    pub rows: Vec<RemovalRow>,
    pub recorded_high_water: Option<String>,
    pub greatest_held: Option<i64>,
}

/// A decided removal: the stored rows after it, the high water mark to record
/// when a marker was assigned, and the answer.
#[derive(Clone, Debug, PartialEq, Eq)]
pub struct RemovalChange {
    pub rows: Vec<RemovalRow>,
    pub high_water: Option<i64>,
    pub result: PhotoRemovalResult,
}

/// A copy of a list of stored rows.
pub fn clone_removal_rows(rows: &Vec<RemovalRow>) -> (copy: Vec<RemovalRow>)
    ensures
        copy@ == rows@,
{
    let mut copy: Vec<RemovalRow> = Vec::new();
    let mut i: usize = 0;
    while i < rows.len()
        invariant
            i <= rows.len(),
            copy@ == rows@.take(i as int),
        decreases rows.len() - i,
    {
        copy.push(
            RemovalRow {
                photo_id: rows[i].photo_id.clone(),
                selection: rows[i].selection.clone(),
                removed_at_ms: rows[i].removed_at_ms,
                removed_operation: clone_opt_text(&rows[i].removed_operation),
            },
        );
        assert(rows@.take(i + 1) =~= rows@.take(i as int).push(rows@[i as int]));
        i = i + 1;
    }
    assert(rows@.take(rows@.len() as int) =~= rows@);
    copy
}

fn index_of_removal(rows: &Vec<RemovalRow>, id: &String) -> (index: Option<usize>)
    ensures
        match index {
            Some(i) => first_index(removal_ids(removal_rows(rows@)), id@) == Some(i as int) && i
                < rows.len() && rows@[i as int].photo_id@ == id@,
            None => first_index(removal_ids(removal_rows(rows@)), id@) is None,
        },
{
    let ghost ids = removal_ids(removal_rows(rows@));
    let mut i: usize = 0;
    while i < rows.len()
        invariant
            i <= rows.len(),
            ids == removal_ids(removal_rows(rows@)),
            forall|j: int| 0 <= j < i ==> ids[j] != id@,
        decreases rows.len() - i,
    {
        assert(ids[i as int] == rows@[i as int].photo_id@);
        if same_text(&rows[i].photo_id, id) {
            proof {
                lemma_first_index(ids, id@, i as int);
            }
            return Some(i);
        }
        i = i + 1;
    }
    proof {
        lemma_first_index_absent(ids, id@);
    }
    None
}

proof fn lemma_removal_unreadable(
    rows: Seq<RemovalView>,
    ids: Seq<Seq<char>>,
    operation: Seq<char>,
    marker: i64,
    n: int,
)
    requires
        0 <= n <= ids.len(),
        removal_after(rows, ids.take(n), operation, marker) is None,
    ensures
        removal_after(rows, ids, operation, marker) is None,
    decreases ids.len(),
{
    if n < ids.len() {
        assert(ids.drop_last().take(n) =~= ids.take(n));
        lemma_removal_unreadable(rows, ids.drop_last(), operation, marker, n);
    } else {
        assert(ids.take(n) =~= ids);
    }
}

/// Accepts a removal that names a Photo and an operation.
pub fn validate_removal(mutation: &PhotoRemovalMutation) -> (result: Result<(), MutationError>)
    ensures
        result == (if mutation.photo_ids.len() == 0 || mutation.operation_id@.len() == 0 {
            Err::<(), MutationError>(MutationError::Invalid)
        } else {
            Ok::<(), MutationError>(())
        }),
{
    if mutation.photo_ids.len() == 0 || mutation.operation_id.as_str().unicode_len() == 0 {
        Err(MutationError::Invalid)
    } else {
        Ok(())
    }
}

/// Accepts a restoration of an operation, or of at least one reviewed removal.
pub fn validate_restoration(restoration: &PhotoRestoration) -> (result: Result<(), MutationError>)
    ensures
        result == (if restoration matches PhotoRestoration::Photos(markers) && markers.len() == 0 {
            Err::<(), MutationError>(MutationError::Invalid)
        } else {
            Ok::<(), MutationError>(())
        }),
{
    match restoration {
        PhotoRestoration::Photos(markers) => if markers.len() == 0 {
            Err(MutationError::Invalid)
        } else {
            Ok(())
        },
        PhotoRestoration::Operation(_) => Ok(()),
    }
}

/// What a removal decides.
pub open spec fn removal_decided(
    facts: RemovalFacts,
    mutation: PhotoRemovalMutation,
    now: int,
    result: Result<RemovalChange, MutationError>,
) -> bool {
    let marker = removal_marker(
        opt_text(facts.recorded_high_water),
        facts.greatest_held,
        now,
    ) as i64;
    match removal_after(
        removal_rows(facts.rows@),
        texts(mutation.photo_ids@),
        mutation.operation_id@,
        marker,
    ) {
        None => result == Err::<RemovalChange, MutationError>(MutationError::Persistence),
        Some(end) => {
            &&& result matches Ok(change)
            &&& removal_rows(change.rows@) == end.rows
            &&& change.high_water == (if end.assigned {
                Some(marker)
            } else {
                None
            })
            &&& change.result.operation_id@ == mutation.operation_id@
            &&& texts(change.result.removed@) == end.removed
            &&& texts(change.result.changed_elsewhere@) == end.changed
            &&& texts(change.result.missing@) == end.missing
            &&& texts(change.result.already_removed@) == end.already
            &&& change.result.counts.removed == end.removed.len()
            &&& change.result.counts.changed_elsewhere == end.changed.len()
            &&& change.result.counts.missing == end.missing.len()
            &&& change.result.counts.already_removed == end.already.len()
        },
    }
}

/// Decides a removal. Every Photo of the request is resolved and gets exactly one
/// outcome; a request that removes nothing assigns no marker.
pub fn remove_photos(facts: &RemovalFacts, mutation: &PhotoRemovalMutation, now: i64) -> (result:
    Result<RemovalChange, MutationError>)
    ensures
        removal_decided(*facts, *mutation, now as int, result),
{
    let ghost start = removal_rows(facts.rows@);
    let ghost ids = texts(mutation.photo_ids@);
    let ghost operation = mutation.operation_id@;
    let marker: i64 = next_removal_marker(&facts.recorded_high_water, facts.greatest_held, now);
    let mut rows: Vec<RemovalRow> = clone_removal_rows(&facts.rows);
    let mut removed: Vec<String> = Vec::new();
    let mut changed: Vec<String> = Vec::new();
    let mut missing: Vec<String> = Vec::new();
    let mut already: Vec<String> = Vec::new();
    let mut assigned: bool = false;
    let mut k: usize = 0;
    proof {
        assert(texts(removed@) =~= Seq::empty());
        assert(texts(changed@) =~= Seq::empty());
        assert(texts(missing@) =~= Seq::empty());
        assert(texts(already@) =~= Seq::empty());
    }
    while k < mutation.photo_ids.len()
        invariant
            k <= mutation.photo_ids.len(),
            start == removal_rows(facts.rows@),
            ids == texts(mutation.photo_ids@),
            operation == mutation.operation_id@,
            marker == removal_marker(
                opt_text(facts.recorded_high_water),
                facts.greatest_held,
                now as int,
            ),
            removal_after(start, ids.take(k as int), operation, marker) == Some(
                RemovalProgress {
                    rows: removal_rows(rows@),
                    removed: texts(removed@),
                    changed: texts(changed@),
                    missing: texts(missing@),
                    already: texts(already@),
                    assigned,
                },
            ),
        decreases mutation.photo_ids.len() - k,
    {
        let ghost taken = ids.take(k + 1);
        let id: &String = &mutation.photo_ids[k];
        proof {
            assert(taken.drop_last() =~= ids.take(k as int));
            assert(taken.last() == id@);
            lemma_texts_push(removed@, *id);
            lemma_texts_push(changed@, *id);
            lemma_texts_push(missing@, *id);
            lemma_texts_push(already@, *id);
        }
        match index_of_removal(&rows, id) {
            None => {
                missing.push(id.clone());
            },
            Some(at) => {
                if rows[at].removed_at_ms.is_some() {
                    let own: bool = match &rows[at].removed_operation {
                        Some(owner) => same_text(owner, &mutation.operation_id),
                        None => false,
                    };
                    if own {
                        removed.push(id.clone());
                    } else {
                        already.push(id.clone());
                    }
                } else {
                    match parse_selection_state(&rows[at].selection) {
                        None => {
                            proof {
                                lemma_removal_unreadable(start, ids, operation, marker, k + 1);
                            }
                            return Err(MutationError::Persistence);
                        },
                        Some(state) => {
                            if state != SelectionState::Rejected {
                                changed.push(id.clone());
                            } else {
                                let row: RemovalRow = RemovalRow {
                                    photo_id: rows[at].photo_id.clone(),
                                    selection: rows[at].selection.clone(),
                                    removed_at_ms: Some(marker),
                                    removed_operation: Some(mutation.operation_id.clone()),
                                };
                                let ghost before = removal_rows(rows@);
                                rows[at] = row;
                                assert(removal_rows(rows@) =~= before.update(at as int, row@));
                                removed.push(id.clone());
                                assigned = true;
                            }
                        },
                    }
                }
            },
        }
        k = k + 1;
    }
    assert(ids.take(ids.len() as int) =~= ids);
    let counts: PhotoRemovalCounts = PhotoRemovalCounts {
        removed: removed.len(),
        changed_elsewhere: changed.len(),
        missing: missing.len(),
        already_removed: already.len(),
    };
    assert(texts(removed@).len() == removed.len());
    assert(texts(changed@).len() == changed.len());
    assert(texts(missing@).len() == missing.len());
    assert(texts(already@).len() == already.len());
    Ok(
        RemovalChange {
            rows,
            high_water: if assigned {
                Some(marker)
            } else {
                None
            },
            result: PhotoRemovalResult {
                operation_id: mutation.operation_id.clone(),
                counts,
                removed,
                changed_elsewhere: changed,
                missing,
                already_removed: already,
            },
        },
    )
}

/// A removal gives every Photo of the request exactly one outcome and keeps the
/// Photos and their Selection States.
pub proof fn law_removal_partitions_the_request(
    rows: Seq<RemovalView>,
    ids: Seq<Seq<char>>,
    operation: Seq<char>,
    marker: i64,
)
    ensures
        removal_after(rows, ids, operation, marker) matches Some(end) ==> {
            &&& end.removed.len() + end.changed.len() + end.missing.len() + end.already.len()
                == ids.len()
            &&& removal_ids(end.rows) == removal_ids(rows)
            &&& end.rows.len() == rows.len()
            &&& forall|i: int|
                0 <= i < rows.len() ==> (#[trigger] end.rows[i]).selection == rows[i].selection
            &&& !end.assigned ==> end.rows == rows
        },
    decreases ids.len(),
{
    if ids.len() > 0 {
        law_removal_partitions_the_request(rows, ids.drop_last(), operation, marker);
        if let Some(before) = removal_after(rows, ids.drop_last(), operation, marker) {
            lemma_first_index_found(removal_ids(before.rows), ids.last());
            if let Some(end) = removal_after(rows, ids, operation, marker) {
                if let Some(i) = first_index(removal_ids(before.rows), ids.last()) {
                    assert(before.rows[i].photo_id == removal_ids(before.rows)[i]);
                }
                assert(removal_ids(end.rows) =~= removal_ids(before.rows));
            }
        }
    } else {
        assert(removal_ids(rows) =~= removal_ids(rows));
    }
}

/// What a removal makes of one row: a Photo of the request that is rejected and
/// not removed gets the marker and the operation, and every other row stays.
pub proof fn lemma_removal_rows(
    rows: Seq<RemovalView>,
    ids: Seq<Seq<char>>,
    operation: Seq<char>,
    marker: i64,
    i: int,
)
    requires
        removal_ids(rows).no_duplicates(),
        removal_after(rows, ids, operation, marker) is Some,
        0 <= i < rows.len(),
    ensures
        removal_after(rows, ids, operation, marker)->0.rows.len() == rows.len(),
        removal_ids(removal_after(rows, ids, operation, marker)->0.rows) == removal_ids(rows),
        removal_after(rows, ids, operation, marker)->0.rows[i] == (if ids.contains(
            rows[i].photo_id,
        ) && rows[i].removed_at is None && selection_of(rows[i].selection) == Some(
            SelectionState::Rejected,
        ) {
            RemovalView { removed_at: Some(marker), operation: Some(operation), ..rows[i] }
        } else {
            rows[i]
        }),
    decreases ids.len(),
{
    law_removal_partitions_the_request(rows, ids, operation, marker);
    if ids.len() > 0 {
        let front = ids.drop_last();
        let id = ids.last();
        lemma_removal_rows(rows, front, operation, marker, i);
        let before = removal_after(rows, front, operation, marker)->0;
        assert(front.push(id) =~= ids);
        assert(ids[ids.len() - 1] == id);
        lemma_first_index_found(removal_ids(before.rows), id);
        assert(removal_ids(before.rows)[i] == rows[i].photo_id);
        if rows[i].photo_id == id {
            assert(removal_ids(before.rows).contains(id));
            let at = first_index(removal_ids(before.rows), id)->0;
            assert(removal_ids(before.rows)[at] == removal_ids(before.rows)[i]);
            assert(at == i);
        } else if ids.contains(rows[i].photo_id) {
            let k = choose|k: int| 0 <= k < ids.len() && ids[k] == rows[i].photo_id;
            assert(front[k] == ids[k]);
        }
        if front.contains(rows[i].photo_id) {
            let k = choose|k: int| 0 <= k < front.len() && front[k] == rows[i].photo_id;
            assert(ids[k] == front[k]);
        }
    }
}

proof fn lemma_retried_prefix(
    rows: Seq<RemovalView>,
    ids: Seq<Seq<char>>,
    operation: Seq<char>,
    marker: i64,
    later: i64,
    n: int,
)
    requires
        removal_ids(rows).no_duplicates(),
        removal_after(rows, ids, operation, marker) is Some,
        0 <= n <= ids.len(),
    ensures
        removal_after(rows, ids.take(n), operation, marker) is Some,
        ({
            let end = removal_after(rows, ids, operation, marker)->0;
            let then = removal_after(rows, ids.take(n), operation, marker)->0;
            removal_after(end.rows, ids.take(n), operation, later) == Some(
                RemovalProgress { rows: end.rows, assigned: false, ..then },
            )
        }),
    decreases n,
{
    lemma_prefix_readable(rows, ids, operation, marker, n);
    let end = removal_after(rows, ids, operation, marker)->0;
    let taken = ids.take(n);
    if n > 0 {
        lemma_retried_prefix(rows, ids, operation, marker, later, n - 1);
        assert(taken.drop_last() =~= ids.take(n - 1));
        let id = taken.last();
        assert(id == ids[n - 1]);
        assert(ids.contains(id));
        let before = removal_after(rows, ids.take(n - 1), operation, marker)->0;
        law_removal_partitions_the_request(rows, ids.take(n - 1), operation, marker);
        law_removal_partitions_the_request(rows, ids, operation, marker);
        lemma_first_index_found(removal_ids(rows), id);
        if let Some(i) = first_index(removal_ids(rows), id) {
            assert(rows[i].photo_id == id);
            lemma_removal_rows(rows, ids, operation, marker, i);
            lemma_removal_rows(rows, ids.take(n - 1), operation, marker, i);
        }
    }
}

proof fn lemma_prefix_readable(
    rows: Seq<RemovalView>,
    ids: Seq<Seq<char>>,
    operation: Seq<char>,
    marker: i64,
    n: int,
)
    requires
        removal_after(rows, ids, operation, marker) is Some,
        0 <= n <= ids.len(),
    ensures
        removal_after(rows, ids.take(n), operation, marker) is Some,
    decreases ids.len(),
{
    if n == ids.len() {
        assert(ids.take(n) =~= ids);
    } else {
        assert(ids.drop_last().take(n) =~= ids.take(n));
        lemma_prefix_readable(rows, ids.drop_last(), operation, marker, n);
    }
}

/// Repeating a removal under the same operation repeats its whole answer, assigns
/// no marker and changes nothing.
pub proof fn law_retried_removal_repeats_its_result(
    rows: Seq<RemovalView>,
    ids: Seq<Seq<char>>,
    operation: Seq<char>,
    marker: i64,
    later: i64,
)
    requires
        removal_ids(rows).no_duplicates(),
        removal_after(rows, ids, operation, marker) is Some,
    ensures
        ({
            let first = removal_after(rows, ids, operation, marker)->0;
            removal_after(first.rows, ids, operation, later) == Some(
                RemovalProgress { assigned: false, ..first },
            )
        }),
{
    assert(ids.take(ids.len() as int) =~= ids);
    lemma_retried_prefix(rows, ids, operation, marker, later, ids.len() as int);
}

proof fn lemma_push_has<T>(list: Seq<T>, last: T, x: T)
    ensures
        list.contains(x) ==> list.push(last).contains(x),
        list.push(last).contains(last),
{
    let all = list.push(last);
    assert(all[list.len() as int] == last);
    if list.contains(x) {
        let i = choose|i: int| 0 <= i < list.len() && list[i] == x;
        assert(all[i] == x);
    }
}

proof fn lemma_removal_row(
    rows: Seq<RemovalView>,
    ids: Seq<Seq<char>>,
    operation: Seq<char>,
    marker: i64,
    i: int,
)
    requires
        removal_ids(rows).no_duplicates(),
        removal_after(rows, ids, operation, marker) is Some,
        0 <= i < rows.len(),
    ensures
        ({
            let end = removal_after(rows, ids, operation, marker)->0;
            let row = rows[i];
            let goes = ids.contains(row.photo_id) && row.removed_at is None && selection_of(
                row.selection,
            ) == Some(SelectionState::Rejected);
            &&& end.rows.len() == rows.len()
            &&& end.rows[i] == (if goes {
                RemovalView { removed_at: Some(marker), operation: Some(operation), ..row }
            } else {
                row
            })
            &&& ids.contains(row.photo_id) ==> {
                &&& row.removed_at is Some && row.operation == Some(operation)
                    ==> end.removed.contains(row.photo_id)
                &&& row.removed_at is Some && row.operation != Some(operation)
                    ==> end.already.contains(row.photo_id)
                &&& goes ==> end.removed.contains(row.photo_id) && end.assigned
                &&& row.removed_at is None && !goes ==> end.changed.contains(row.photo_id)
            }
        }),
    decreases ids.len(),
{
    if ids.len() > 0 {
        let front = ids.drop_last();
        let id = ids.last();
        let before = removal_after(rows, front, operation, marker)->0;
        let end = removal_after(rows, ids, operation, marker)->0;
        let own = rows[i].photo_id;
        lemma_removal_row(rows, front, operation, marker, i);
        law_removal_partitions_the_request(rows, front, operation, marker);
        assert(removal_ids(before.rows) == removal_ids(rows));
        lemma_first_index_found(removal_ids(rows), id);
        assert(removal_ids(rows)[i] == own);
        assert(ids.contains(own) <==> front.contains(own) || id == own) by {
            if front.contains(own) {
                let a = choose|a: int| 0 <= a < front.len() && front[a] == own;
                assert(ids[a] == own);
            }
            if id == own {
                assert(ids[ids.len() - 1] == own);
            }
            if ids.contains(own) {
                let a = choose|a: int| 0 <= a < ids.len() && ids[a] == own;
                if a < front.len() {
                    assert(front[a] == own);
                }
            }
        }
        lemma_push_has(before.removed, id, own);
        lemma_push_has(before.already, id, own);
        lemma_push_has(before.changed, id, own);
        if id == own {
            assert(removal_ids(rows).contains(own));
            let j = first_index(removal_ids(rows), id)->0;
            assert(i == j);
        }
    }
}

proof fn lemma_removal_missing(
    rows: Seq<RemovalView>,
    ids: Seq<Seq<char>>,
    operation: Seq<char>,
    marker: i64,
    id: Seq<char>,
)
    requires
        removal_after(rows, ids, operation, marker) is Some,
        ids.contains(id),
        !removal_ids(rows).contains(id),
    ensures
        removal_after(rows, ids, operation, marker)->0.missing.contains(id),
    decreases ids.len(),
{
    let front = ids.drop_last();
    let before = removal_after(rows, front, operation, marker)->0;
    law_removal_partitions_the_request(rows, front, operation, marker);
    lemma_first_index_found(removal_ids(rows), ids.last());
    lemma_push_has(before.missing, ids.last(), id);
    if ids.last() != id {
        let a = choose|a: int| 0 <= a < ids.len() && ids[a] == id;
        assert(front[a] == id);
        lemma_removal_missing(rows, front, operation, marker, id);
    }
}

/// A removal takes exactly the rejected Photos that it names and that were not removed:
/// each gets the marker and the operation of the removal, and is told as removed. A
/// Photo that is not rejected stays and is told as changed elsewhere; one that another
/// operation removed stays as it is and is told so; one that this operation removed is
/// told as removed again. Every Photo keeps its selection, and the ones that are not
/// named stay as they were.
pub proof fn law_removals_take_rejected_photos(
    facts: RemovalFacts,
    mutation: PhotoRemovalMutation,
    now: i64,
    change: RemovalChange,
    i: int,
)
    requires
        removal_decided(facts, mutation, now as int, Ok(change)),
        0 <= i < facts.rows.len(),
        forall|a: int, b: int|
            0 <= a < b < facts.rows.len() ==> (#[trigger] facts.rows@[a]).photo_id@ != (
            #[trigger] facts.rows@[b]).photo_id@,
    ensures
        ({
            let before = facts.rows@[i];
            let after = change.rows@[i];
            let id = before.photo_id@;
            let named = exists|k: int|
                0 <= k < mutation.photo_ids.len() && (#[trigger] mutation.photo_ids@[k])@ == id;
            let rejected = before.selection@ == "rejected"@;
            &&& change.rows.len() == facts.rows.len()
            &&& change.result.operation_id@ == mutation.operation_id@
            &&& after.photo_id@ == id
            &&& after.selection@ == before.selection@
            &&& !named || before.removed_at_ms is Some || !rejected ==> after.removed_at_ms
                == before.removed_at_ms && opt_text(after.removed_operation) == opt_text(
                before.removed_operation,
            )
            &&& named && before.removed_at_ms is None && rejected ==> {
                &&& after.removed_at_ms is Some
                &&& change.high_water == after.removed_at_ms
                &&& after.removed_at_ms->0 >= now
                &&& opt_text(after.removed_operation) == Some(mutation.operation_id@)
                &&& texts(change.result.removed@).contains(id)
            }
            &&& named && before.removed_at_ms is None && !rejected ==> texts(
                change.result.changed_elsewhere@,
            ).contains(id)
            &&& named && before.removed_at_ms is Some && opt_text(before.removed_operation)
                == Some(mutation.operation_id@) ==> texts(change.result.removed@).contains(id)
            &&& named && before.removed_at_ms is Some && opt_text(before.removed_operation)
                != Some(mutation.operation_id@) ==> texts(change.result.already_removed@).contains(
                id,
            )
        }),
{
    let rows = removal_rows(facts.rows@);
    let ids = texts(mutation.photo_ids@);
    let marker = removal_marker(
        opt_text(facts.recorded_high_water),
        facts.greatest_held,
        now as int,
    ) as i64;
    assert(removal_ids(rows).no_duplicates()) by {
        assert forall|a: int, b: int|
            0 <= a < removal_ids(rows).len() && 0 <= b < removal_ids(rows).len() && a != b implies
            removal_ids(rows)[a] != removal_ids(rows)[b] by {
            assert(removal_ids(rows)[a] == facts.rows@[a].photo_id@);
            assert(removal_ids(rows)[b] == facts.rows@[b].photo_id@);
        }
    }
    lemma_removal_row(rows, ids, mutation.operation_id@, marker, i);
    assert(rows[i] == facts.rows@[i]@);
    assert(removal_rows(change.rows@).len() == change.rows.len());
    assert(removal_rows(change.rows@)[i] == change.rows@[i]@);
    let id = facts.rows@[i].photo_id@;
    if ids.contains(id) {
        let k = choose|k: int| 0 <= k < ids.len() && ids[k] == id;
        assert(mutation.photo_ids@[k]@ == id);
    }
    if exists|k: int|
        0 <= k < mutation.photo_ids.len() && (#[trigger] mutation.photo_ids@[k])@ == id {
        let k = choose|k: int|
            0 <= k < mutation.photo_ids.len() && (#[trigger] mutation.photo_ids@[k])@ == id;
        assert(ids[k] == id);
    }
    law_selections_are_stored_by_name(facts.rows@[i].selection@);
}

/// A Photo that a removal names and that is not stored is told as missing, and what the
/// removal tells of its Photos adds up to the request.
pub proof fn law_removals_tell_missing_photos(
    facts: RemovalFacts,
    mutation: PhotoRemovalMutation,
    now: i64,
    change: RemovalChange,
    k: int,
)
    requires
        removal_decided(facts, mutation, now as int, Ok(change)),
        0 <= k < mutation.photo_ids.len(),
    ensures
        (forall|i: int|
            0 <= i < facts.rows.len() ==> (#[trigger] facts.rows@[i]).photo_id@
                != mutation.photo_ids@[k]@) ==> texts(change.result.missing@).contains(
            mutation.photo_ids@[k]@,
        ),
        change.result.removed.len() + change.result.changed_elsewhere.len()
            + change.result.missing.len() + change.result.already_removed.len()
            == mutation.photo_ids.len(),
        change.result.counts.removed == change.result.removed.len(),
        change.result.counts.changed_elsewhere == change.result.changed_elsewhere.len(),
        change.result.counts.missing == change.result.missing.len(),
        change.result.counts.already_removed == change.result.already_removed.len(),
{
    let rows = removal_rows(facts.rows@);
    let ids = texts(mutation.photo_ids@);
    let id = mutation.photo_ids@[k]@;
    let marker = removal_marker(
        opt_text(facts.recorded_high_water),
        facts.greatest_held,
        now as int,
    ) as i64;
    law_removal_partitions_the_request(rows, ids, mutation.operation_id@, marker);
    assert(ids[k] == id);
    assert(texts(change.result.removed@).len() == change.result.removed.len());
    assert(texts(change.result.changed_elsewhere@).len() == change.result.changed_elsewhere.len());
    assert(texts(change.result.missing@).len() == change.result.missing.len());
    assert(texts(change.result.already_removed@).len() == change.result.already_removed.len());
    if forall|i: int| 0 <= i < facts.rows.len() ==> (#[trigger] facts.rows@[i]).photo_id@ != id {
        if removal_ids(rows).contains(id) {
            let i = choose|i: int| 0 <= i < removal_ids(rows).len() && removal_ids(rows)[i] == id;
            assert(facts.rows@[i].photo_id@ == id);
        }
        assert(ids.contains(id));
        lemma_removal_missing(rows, ids, mutation.operation_id@, marker, id);
    }
}

/// The marker of a removal is no earlier than the clock, and above the markers that were
/// given before it.
pub proof fn law_removal_markers_ascend(recorded: Option<Seq<char>>, held: Option<i64>, now: i64)
    ensures
        removal_marker(recorded, held, now as int) >= now,
        recorded is None && held is Some && held->0 < i64::MAX ==> removal_marker(
            recorded,
            held,
            now as int,
        ) == (if now > held->0 {
            now as int
        } else {
            held->0 + 1
        }),
        recorded is None && held is None ==> removal_marker(recorded, held, now as int) == (if now
            > 1 {
            now as int
        } else {
            1
        }),
        recorded is Some && read_i64(recorded->0) is Some && read_i64(recorded->0)->0 < i64::MAX
            ==> removal_marker(recorded, held, now as int) > read_i64(recorded->0)->0,
{
}

/// A removal names Photos and an operation, and a restoration of Photos names some; others
/// are invalid.
pub proof fn law_removals_name_photos(
    mutation: PhotoRemovalMutation,
    restoration: PhotoRestoration,
    removal: Result<(), MutationError>,
    restored: Result<(), MutationError>,
)
    requires
        call_ensures(validate_removal, (&mutation,), removal),
        call_ensures(validate_restoration, (&restoration,), restored),
    ensures
        removal is Ok <==> mutation.photo_ids.len() > 0 && mutation.operation_id@.len() > 0,
        removal is Err ==> removal->Err_0 == MutationError::Invalid,
        restored is Err <==> restoration is Photos && restoration->Photos_0.len() == 0,
        restored is Err ==> restored->Err_0 == MutationError::Invalid,
{
}

} // verus!
