//! What decisions about Photos do to the stored state and what they are answered.
use crate::codec::{parse_selection_state, selection_name, selection_of, SelectionState};
use crate::error::MutationError;
use crate::photo_state::{
    is_too_high, law_set_value_reads_back, row_ids, rows_view, set_value, state_value,
    stored_value, too_high, value_fits, with_value, DecisionRow, DecisionView, PhotoStateBatchApplied, PhotoStateBatchChangedElsewhere,
    PhotoStateBatchItem, PhotoStateBatchMissing, PhotoStateBatchMutation, PhotoStateBatchResult,
    PhotoStateField, PhotoStateMutation, PhotoStateMutationResult, PhotoStateUndo, PhotoStateValue,
};
use crate::text::{
    first_index, lemma_first_index, lemma_first_index_absent, lemma_first_index_found, same_text,
};
use vstd::prelude::*;
use vstd::string::*;

verus! {

/// A browsing position to save: the Photo at which browsing an Album stopped.
#[derive(Clone, Debug, PartialEq, Eq)]
pub struct SavedPosition {
    pub album_id: String,
    pub photo_id: String,
}

/// A decided change of one Photo: the stored decisions after it, the browsing
/// position it saves, and the answer.
#[derive(Clone, Debug, PartialEq, Eq)]
pub struct PhotoStateChange {
    pub rows: Vec<DecisionRow>,
    pub saved_position: Option<SavedPosition>,
    pub result: PhotoStateMutationResult,
}

/// A copy of a list of stored decisions.
pub fn clone_rows(rows: &Vec<DecisionRow>) -> (copy: Vec<DecisionRow>)
    ensures
        copy@ == rows@,
{
    let mut copy: Vec<DecisionRow> = Vec::new();
    let mut i: usize = 0;
    while i < rows.len()
        invariant
            i <= rows.len(),
            copy@ == rows@.take(i as int),
        decreases rows.len() - i,
    {
        copy.push(
            DecisionRow {
                photo_id: rows[i].photo_id.clone(),
                selection: rows[i].selection.clone(),
                rating: rows[i].rating,
            },
        );
        assert(rows@.take(i + 1) =~= rows@.take(i as int).push(rows@[i as int]));
        i = i + 1;
    }
    assert(rows@.take(rows@.len() as int) =~= rows@);
    copy
}

/// The index of a Photo's stored decision.
pub fn index_of_row(rows: &Vec<DecisionRow>, id: &String) -> (index: Option<usize>)
    ensures
        match index {
            Some(i) => first_index(row_ids(rows_view(rows@)), id@) == Some(i as int) && i
                < rows.len(),
            None => first_index(row_ids(rows_view(rows@)), id@) is None,
        },
{
    let ghost ids = row_ids(rows_view(rows@));
    let mut i: usize = 0;
    while i < rows.len()
        invariant
            i <= rows.len(),
            ids == row_ids(rows_view(rows@)),
            forall|j: int| 0 <= j < i ==> ids[j] != id@,
        decreases rows.len() - i,
    {
        assert(ids[i as int] == rows@[i as int].photo_id@);
        if same_text(&rows[i].photo_id, id) {
            proof {
                lemma_first_index(ids, id@, i as int);
            }
            return Some(i);
        }
        i = i + 1;
    }
    proof {
        lemma_first_index_absent(ids, id@);
    }
    None
}

/// Why a change of one Photo is refused: the Photo is not known, its stored value
/// cannot be read, it is not the expected one, the Photo is no member of the Album
/// whose position it would save, or the database has no such rating.
pub open spec fn photo_state_refusal(
    rows: Seq<DecisionView>,
    member: bool,
    mutation: PhotoStateMutation,
) -> Option<MutationError> {
    match first_index(row_ids(rows), mutation.photo_id@) {
        None => Some(MutationError::NotFound),
        Some(i) => match stored_value(rows[i].selection, rows[i].rating, mutation.field) {
            None => Some(MutationError::Persistence),
            Some(prior) => if mutation.expected_current is Some && mutation.expected_current->0
                != prior {
                Some(MutationError::Conflict)
            } else if mutation.album_id is Some && !member {
                Some(MutationError::NotFound)
            } else if too_high(mutation.value) {
                Some(MutationError::Conflict)
            } else {
                None
            },
        },
    }
}

/// The stored decisions after a change of one Photo.
pub open spec fn photo_state_rows(
    rows: Seq<DecisionView>,
    mutation: PhotoStateMutation,
) -> Seq<DecisionView> {
    let i = first_index(row_ids(rows), mutation.photo_id@)->0;
    rows.update(i, with_value(rows[i], mutation.value))
}

/// The value that a Photo had in the field that a change sets.
pub open spec fn prior_value(
    rows: Seq<DecisionView>,
    mutation: PhotoStateMutation,
) -> PhotoStateValue {
    let i = first_index(row_ids(rows), mutation.photo_id@)->0;
    stored_value(rows[i].selection, rows[i].rating, mutation.field)->0
}

/// What a change of one Photo decides.
pub open spec fn photo_state_decided(
    rows: Seq<DecisionView>,
    member: bool,
    mutation: PhotoStateMutation,
    result: Result<PhotoStateChange, MutationError>,
) -> bool {
    match photo_state_refusal(rows, member, mutation) {
        Some(error) => result == Err::<PhotoStateChange, MutationError>(error),
        None => {
            &&& result matches Ok(change)
            &&& rows_view(change.rows@) == photo_state_rows(rows, mutation)
            &&& match (change.saved_position, mutation.album_id) {
                (Some(saved), Some(album_id)) => saved.album_id@ == album_id@ && saved.photo_id@
                    == mutation.photo_id@,
                (None, None) => true,
                _ => false,
            }
            &&& change.result.photo_id@ == mutation.photo_id@
            &&& change.result.undo.photo_id@ == mutation.photo_id@
            &&& change.result.undo.field == mutation.field
            &&& change.result.undo.prior_value == prior_value(rows, mutation)
            &&& change.result.undo.expected_current == mutation.value
        },
    }
}

/// Decides a change of one Photo. `member` tells whether the Photo is a member of
/// the Album that the change names.
pub fn mutate_photo_state(
    rows: &Vec<DecisionRow>,
    member: bool,
    mutation: &PhotoStateMutation,
) -> (result: Result<PhotoStateChange, MutationError>)
    ensures
        photo_state_decided(rows_view(rows@), member, *mutation, result),
{
    let at: usize = match index_of_row(rows, &mutation.photo_id) {
        None => {
            return Err(MutationError::NotFound);
        },
        Some(at) => at,
    };
    let prior: PhotoStateValue = match state_value(
        &rows[at].selection,
        rows[at].rating,
        mutation.field,
    ) {
        Err(error) => {
            return Err(error);
        },
        Ok(prior) => prior,
    };
    match mutation.expected_current {
        Some(expected) => {
            if expected != prior {
                return Err(MutationError::Conflict);
            }
        },
        None => {},
    }
    if mutation.album_id.is_some() && !member {
        return Err(MutationError::NotFound);
    }
    if is_too_high(mutation.value) {
        return Err(MutationError::Conflict);
    }
    let mut next: Vec<DecisionRow> = clone_rows(rows);
    let changed: DecisionRow = set_value(&rows[at], mutation.value);
    next[at] = changed;
    assert(rows_view(next@) =~= photo_state_rows(rows_view(rows@), *mutation));
    let saved_position: Option<SavedPosition> = match &mutation.album_id {
        Some(album_id) => Some(
            SavedPosition { album_id: album_id.clone(), photo_id: mutation.photo_id.clone() },
        ),
        None => None,
    };
    Ok(
        PhotoStateChange {
            rows: next,
            saved_position,
            result: PhotoStateMutationResult {
                photo_id: mutation.photo_id.clone(),
                undo: PhotoStateUndo {
                    photo_id: mutation.photo_id.clone(),
                    field: mutation.field,
                    prior_value: prior,
                    expected_current: mutation.value,
                },
            },
        },
    )
}

/// Applying the undo of a change gives back every stored decision from before it,
/// where the rating from before is one that the database holds.
pub proof fn law_undo_restores_the_decision(
    rows: Seq<DecisionView>,
    member: bool,
    mutation: PhotoStateMutation,
    undo: PhotoStateMutation,
)
    requires
        value_fits(mutation.field, mutation.value),
        photo_state_refusal(rows, member, mutation) is None,
        undo.photo_id@ == mutation.photo_id@,
        undo.field == mutation.field,
        undo.value == prior_value(rows, mutation),
        !too_high(undo.value),
        undo.expected_current == Some(mutation.value),
        undo.album_id is None,
    ensures
        photo_state_refusal(photo_state_rows(rows, mutation), member, undo) is None,
        photo_state_rows(photo_state_rows(rows, mutation), undo) == rows,
{
    let ids = row_ids(rows);
    let after = photo_state_rows(rows, mutation);
    lemma_first_index_found(ids, mutation.photo_id@);
    let i = first_index(ids, mutation.photo_id@)->0;
    assert(row_ids(after) =~= ids);
    law_set_value_reads_back(rows[i], mutation.field, mutation.value);
    let prior = prior_value(rows, mutation);
    assert(with_value(with_value(rows[i], mutation.value), prior) == rows[i]) by {
        match mutation.field {
            PhotoStateField::SelectionState => {
                assert(crate::codec::selection_name(selection_of(rows[i].selection)->0)
                    == rows[i].selection);
            },
            PhotoStateField::Rating => {},
        }
    }
    assert(photo_state_rows(after, undo) =~= rows);
}

/// A change of one Photo leaves every other Photo as it was.
pub proof fn law_other_photos_stay(
    rows: Seq<DecisionView>,
    mutation: PhotoStateMutation,
    j: int,
)
    requires
        first_index(row_ids(rows), mutation.photo_id@) is Some,
        0 <= j < rows.len(),
        rows[j].photo_id != mutation.photo_id@,
    ensures
        photo_state_rows(rows, mutation)[j] == rows[j],
{
    lemma_first_index_found(row_ids(rows), mutation.photo_id@);
}

/// How far a batch has come: the stored decisions, and the Photos that were set,
/// that differ from what was expected, and that are not known.
pub struct BatchView {
    pub rows: Seq<DecisionView>,
    pub applied: Seq<(Seq<char>, SelectionState)>,
    pub changed: Seq<(Seq<char>, SelectionState)>,
    pub missing: Seq<Seq<char>>,
}

/// What a batch comes to, or nothing when a stored value cannot be read.
pub open spec fn batch_after(
    rows: Seq<DecisionView>,
    items: Seq<PhotoStateBatchItem>,
    value: SelectionState,
) -> Option<BatchView>
    decreases items.len(),
{
    if items.len() == 0 {
        Some(
            BatchView { rows, applied: Seq::empty(), changed: Seq::empty(), missing: Seq::empty() },
        )
    } else {
        match batch_after(rows, items.drop_last(), value) {
            None => None,
            Some(before) => {
                let item = items.last();
                let id = item.photo_id@;
                match first_index(row_ids(before.rows), id) {
                    None => Some(BatchView { missing: before.missing.push(id), ..before }),
                    Some(i) => match selection_of(before.rows[i].selection) {
                        None => None,
                        Some(prior) => if prior != item.expected_current {
                            Some(BatchView { changed: before.changed.push((id, prior)), ..before })
                        } else {
                            Some(
                                BatchView {
                                    rows: before.rows.update(
                                        i,
                                        with_value(
                                            before.rows[i],
                                            PhotoStateValue::Selection(value),
                                        ),
                                    ),
                                    applied: before.applied.push((id, prior)),
                                    ..before
                                },
                            )
                        },
                    },
                }
            },
        }
    }
}

/// The Photos that an answer tells as set, with the values before.
pub open spec fn applied_view(list: Seq<PhotoStateBatchApplied>) -> Seq<
    (Seq<char>, SelectionState),
> {
    Seq::new(list.len(), |i: int| (list[i].photo_id@, list[i].prior_value))
}

/// The Photos that an answer tells as changed elsewhere, with their values.
pub open spec fn changed_view(list: Seq<PhotoStateBatchChangedElsewhere>) -> Seq<
    (Seq<char>, SelectionState),
> {
    Seq::new(list.len(), |i: int| (list[i].photo_id@, list[i].current_value))
}

/// The Photos that an answer tells as missing.
pub open spec fn missing_view(list: Seq<PhotoStateBatchMissing>) -> Seq<Seq<char>> {
    Seq::new(list.len(), |i: int| list[i].photo_id@)
}

/// A decided batch: the stored decisions after it and the answer.
#[derive(Clone, Debug, PartialEq, Eq)]
pub struct PhotoStateBatchChange {
    pub rows: Vec<DecisionRow>,
    pub result: PhotoStateBatchResult,
}

proof fn lemma_batch_unreadable(
    rows: Seq<DecisionView>,
    items: Seq<PhotoStateBatchItem>,
    value: SelectionState,
    n: int,
)
    requires
        0 <= n <= items.len(),
        batch_after(rows, items.take(n), value) is None,
    ensures
        batch_after(rows, items, value) is None,
    decreases items.len(),
{
    if n < items.len() {
        assert(items.drop_last().take(n) =~= items.take(n));
        lemma_batch_unreadable(rows, items.drop_last(), value, n);
    } else {
        assert(items.take(n) =~= items);
    }
}

/// Whether a result is what a batch of decisions does to the rows.
pub open spec fn batch_decided(
    rows: Seq<DecisionView>,
    mutation: PhotoStateBatchMutation,
    result: Result<PhotoStateBatchChange, MutationError>,
) -> bool {
    match batch_after(rows, mutation.photos@, mutation.value) {
        None => result == Err::<PhotoStateBatchChange, MutationError>(
            MutationError::Persistence,
        ),
        Some(end) => {
            &&& result matches Ok(change)
            &&& rows_view(change.rows@) == end.rows
            &&& applied_view(change.result.applied@) == end.applied
            &&& changed_view(change.result.changed_elsewhere@) == end.changed
            &&& missing_view(change.result.missing@) == end.missing
        },
    }
}

/// Decides a batch of Selection States. Every Photo of the request is resolved
/// and gets exactly one outcome.
pub fn mutate_photo_state_batch(
    rows: &Vec<DecisionRow>,
    mutation: &PhotoStateBatchMutation,
) -> (result: Result<PhotoStateBatchChange, MutationError>)
    ensures
        batch_decided(rows_view(rows@), *mutation, result),
{
    let ghost start = rows_view(rows@);
    let mut next: Vec<DecisionRow> = clone_rows(rows);
    let mut applied: Vec<PhotoStateBatchApplied> = Vec::new();
    let mut changed: Vec<PhotoStateBatchChangedElsewhere> = Vec::new();
    let mut missing: Vec<PhotoStateBatchMissing> = Vec::new();
    let mut k: usize = 0;
    proof {
        assert(applied_view(applied@) =~= Seq::empty());
        assert(changed_view(changed@) =~= Seq::empty());
        assert(missing_view(missing@) =~= Seq::empty());
    }
    while k < mutation.photos.len()
        invariant
            k <= mutation.photos.len(),
            start == rows_view(rows@),
            batch_after(start, mutation.photos@.take(k as int), mutation.value) == Some(
                BatchView {
                    rows: rows_view(next@),
                    applied: applied_view(applied@),
                    changed: changed_view(changed@),
                    missing: missing_view(missing@),
                },
            ),
        decreases mutation.photos.len() - k,
    {
        let ghost taken = mutation.photos@.take(k + 1);
        proof {
            assert(taken.drop_last() =~= mutation.photos@.take(k as int));
            assert(taken.last() == mutation.photos@[k as int]);
        }
        let item: &PhotoStateBatchItem = &mutation.photos[k];
        match index_of_row(&next, &item.photo_id) {
            None => {
                let entry: PhotoStateBatchMissing = PhotoStateBatchMissing {
                    photo_id: item.photo_id.clone(),
                };
                assert(missing_view(missing@.push(entry)) =~= missing_view(missing@).push(
                    item.photo_id@,
                ));
                missing.push(entry);
            },
            Some(at) => match parse_selection_state(&next[at].selection) {
                None => {
                    proof {
                        lemma_batch_unreadable(start, mutation.photos@, mutation.value, k + 1);
                    }
                    return Err(MutationError::Persistence);
                },
                Some(prior) => {
                    if prior != item.expected_current {
                        let entry: PhotoStateBatchChangedElsewhere =
                            PhotoStateBatchChangedElsewhere {
                            photo_id: item.photo_id.clone(),
                            current_value: prior,
                        };
                        assert(changed_view(changed@.push(entry)) =~= changed_view(changed@).push(
                            (item.photo_id@, prior),
                        ));
                        changed.push(entry);
                    } else {
                        let row: DecisionRow = set_value(
                            &next[at],
                            PhotoStateValue::Selection(mutation.value),
                        );
                        let ghost before = rows_view(next@);
                        next[at] = row;
                        assert(rows_view(next@) =~= before.update(at as int, row@));
                        let entry: PhotoStateBatchApplied = PhotoStateBatchApplied {
                            photo_id: item.photo_id.clone(),
                            prior_value: prior,
                        };
                        assert(applied_view(applied@.push(entry)) =~= applied_view(applied@).push(
                            (item.photo_id@, prior),
                        ));
                        applied.push(entry);
                    }
                },
            },
        }
        k = k + 1;
    }
    assert(mutation.photos@.take(mutation.photos@.len() as int) =~= mutation.photos@);
    Ok(
        PhotoStateBatchChange {
            rows: next,
            result: PhotoStateBatchResult { applied, changed_elsewhere: changed, missing },
        },
    )
}

/// A batch gives every Photo of the request exactly one outcome.
pub proof fn law_batch_partitions_the_request(
    rows: Seq<DecisionView>,
    items: Seq<PhotoStateBatchItem>,
    value: SelectionState,
)
    ensures
        batch_after(rows, items, value) matches Some(end) ==> end.applied.len() + end.changed.len()
            + end.missing.len() == items.len() && row_ids(end.rows) == row_ids(rows),
    decreases items.len(),
{
    if items.len() > 0 {
        law_batch_partitions_the_request(rows, items.drop_last(), value);
        if let Some(before) = batch_after(rows, items.drop_last(), value) {
            lemma_first_index_found(row_ids(before.rows), items.last().photo_id@);
            if let Some(end) = batch_after(rows, items, value) {
                assert(row_ids(end.rows) =~= row_ids(before.rows));
            }
        }
    }
}

/// The text that a selection is stored as.
spec fn stored_selection(text: Seq<char>, state: SelectionState) -> bool {
    match state {
        SelectionState::Undecided => text == "undecided"@,
        SelectionState::Selected => text == "selected"@,
        SelectionState::Rejected => text == "rejected"@,
    }
}

proof fn lemma_selection_texts(text: Seq<char>, state: SelectionState)
    ensures
        selection_of(text) == Some(state) <==> stored_selection(text, state),
        stored_selection(selection_name(state), state),
{
    reveal_strlit("undecided");
    reveal_strlit("selected");
    reveal_strlit("rejected");
    assert("undecided"@.len() != "selected"@.len());
    assert("undecided"@.len() != "rejected"@.len());
    assert("selected"@[0] != "rejected"@[0]);
}

proof fn lemma_row_found(rows: Seq<DecisionRow>, i: int)
    requires
        0 <= i < rows.len(),
        forall|a: int, b: int|
            0 <= a < b < rows.len() ==> (#[trigger] rows[a]).photo_id@ != (
            #[trigger] rows[b]).photo_id@,
    ensures
        first_index(row_ids(rows_view(rows)), rows[i].photo_id@) == Some(i),
        rows_view(rows)[i] == rows[i]@,
{
    let ids = row_ids(rows_view(rows));
    assert(ids[i] == rows[i].photo_id@);
    assert forall|j: int| 0 <= j < i implies ids[j] != rows[i].photo_id@ by {
        assert(ids[j] == rows[j].photo_id@);
    }
    lemma_first_index(ids, rows[i].photo_id@, i);
}

/// A decision that is made changes one value of one Photo to what was asked: a rating
/// becomes the number, a selection becomes the stored name of the state, the other of
/// the two stays, and so does every other Photo. A rating is never above five. What is
/// told to undo it is the value that was stored before.
pub proof fn law_decisions_are_stored_as_asked(
    rows: Seq<DecisionRow>,
    member: bool,
    mutation: PhotoStateMutation,
    change: PhotoStateChange,
    i: int,
)
    requires
        photo_state_decided(rows_view(rows), member, mutation, Ok(change)),
        0 <= i < rows.len(),
        forall|a: int, b: int|
            0 <= a < b < rows.len() ==> (#[trigger] rows[a]).photo_id@ != (
            #[trigger] rows[b]).photo_id@,
    ensures
        change.rows.len() == rows.len(),
        change.rows@[i].photo_id@ == rows[i].photo_id@,
        rows[i].photo_id@ != mutation.photo_id@ ==> change.rows@[i].selection@
            == rows[i].selection@ && change.rows@[i].rating == rows[i].rating,
        rows[i].photo_id@ == mutation.photo_id@ ==> {
            &&& mutation.value matches PhotoStateValue::Rating(rating) ==> {
                &&& rating <= 5
                &&& change.rows@[i].rating == rating
                &&& change.rows@[i].selection@ == rows[i].selection@
            }
            &&& mutation.value == PhotoStateValue::Selection(SelectionState::Undecided) ==> {
                &&& change.rows@[i].selection@ == "undecided"@
                &&& change.rows@[i].rating == rows[i].rating
            }
            &&& mutation.value == PhotoStateValue::Selection(SelectionState::Selected) ==> {
                &&& change.rows@[i].selection@ == "selected"@
                &&& change.rows@[i].rating == rows[i].rating
            }
            &&& mutation.value == PhotoStateValue::Selection(SelectionState::Rejected) ==> {
                &&& change.rows@[i].selection@ == "rejected"@
                &&& change.rows@[i].rating == rows[i].rating
            }
            &&& change.result.photo_id@ == mutation.photo_id@
            &&& change.result.undo.photo_id@ == mutation.photo_id@
            &&& change.result.undo.field == mutation.field
            &&& change.result.undo.expected_current == mutation.value
            &&& mutation.field == PhotoStateField::Rating ==> {
                &&& change.result.undo.prior_value is Rating
                &&& change.result.undo.prior_value->Rating_0 == rows[i].rating
            }
            &&& mutation.field == PhotoStateField::SelectionState ==> {
                &&& change.result.undo.prior_value is Selection
                &&& match change.result.undo.prior_value->Selection_0 {
                    SelectionState::Undecided => rows[i].selection@ == "undecided"@,
                    SelectionState::Selected => rows[i].selection@ == "selected"@,
                    SelectionState::Rejected => rows[i].selection@ == "rejected"@,
                }
            }
            &&& mutation.expected_current is Some ==> mutation.expected_current->0
                == change.result.undo.prior_value
            &&& mutation.album_id is Some ==> member && change.saved_position is Some
                && change.saved_position->0.album_id@ == mutation.album_id->0@
                && change.saved_position->0.photo_id@ == mutation.photo_id@
            &&& mutation.album_id is None ==> change.saved_position is None
        },
        exists|k: int| 0 <= k < rows.len() && (#[trigger] rows[k]).photo_id@ == mutation.photo_id@,
{
    let views = rows_view(rows);
    let after = rows_view(change.rows@);
    lemma_first_index_found(row_ids(views), mutation.photo_id@);
    let k = first_index(row_ids(views), mutation.photo_id@)->0;
    assert(row_ids(views)[k] == rows[k].photo_id@);
    lemma_row_found(rows, i);
    assert(after.len() == views.len());
    assert(after[i] == change.rows@[i]@);
    if rows[i].photo_id@ == mutation.photo_id@ {
        assert(k == i);
        if let PhotoStateValue::Selection(state) = mutation.value {
            lemma_selection_texts(rows[i].selection@, state);
        }
        if mutation.field == PhotoStateField::SelectionState {
            lemma_selection_texts(
                rows[i].selection@,
                change.result.undo.prior_value->Selection_0,
            );
        }
    } else {
        assert(k != i);
        assert(after[i] == views[i]);
    }
}

/// A decision about a Photo that is not stored is not found. One that expects another
/// value than the stored one, or asks for a rating above five, is a conflict, and one
/// that names an Album without the Photo is not found. Any other one is made.
pub proof fn law_decisions_are_refused(
    rows: Seq<DecisionRow>,
    member: bool,
    mutation: PhotoStateMutation,
    result: Result<PhotoStateChange, MutationError>,
    i: int,
)
    requires
        photo_state_decided(rows_view(rows), member, mutation, result),
        forall|a: int, b: int|
            0 <= a < b < rows.len() ==> (#[trigger] rows[a]).photo_id@ != (
            #[trigger] rows[b]).photo_id@,
    ensures
        (forall|k: int|
            0 <= k < rows.len() ==> (#[trigger] rows[k]).photo_id@ != mutation.photo_id@)
            ==> result == Err::<PhotoStateChange, MutationError>(MutationError::NotFound),
        0 <= i < rows.len() && rows[i].photo_id@ == mutation.photo_id@ && mutation.field
            == PhotoStateField::Rating && 0 <= rows[i].rating <= 255 ==> {
            let differs = mutation.expected_current is Some && !(
            mutation.expected_current->0 is Rating && mutation.expected_current->0->Rating_0
                == rows[i].rating);
            let high = mutation.value is Rating && mutation.value->Rating_0 > 5;
            &&& differs ==> result == Err::<PhotoStateChange, MutationError>(
                MutationError::Conflict,
            )
            &&& !differs && mutation.album_id is Some && !member ==> result == Err::<
                PhotoStateChange,
                MutationError,
            >(MutationError::NotFound)
            &&& !differs && !(mutation.album_id is Some && !member) && high ==> result == Err::<
                PhotoStateChange,
                MutationError,
            >(MutationError::Conflict)
            &&& !differs && !(mutation.album_id is Some && !member) && !high ==> result is Ok
        },
        0 <= i < rows.len() && rows[i].photo_id@ == mutation.photo_id@ && mutation.field
            == PhotoStateField::SelectionState ==> {
            let known = rows[i].selection@ == "undecided"@ || rows[i].selection@ == "selected"@
                || rows[i].selection@ == "rejected"@;
            let differs = mutation.expected_current is Some && match mutation.expected_current->0 {
                PhotoStateValue::Rating(_) => true,
                PhotoStateValue::Selection(SelectionState::Undecided) => rows[i].selection@
                    != "undecided"@,
                PhotoStateValue::Selection(SelectionState::Selected) => rows[i].selection@
                    != "selected"@,
                PhotoStateValue::Selection(SelectionState::Rejected) => rows[i].selection@
                    != "rejected"@,
            };
            &&& !known ==> result == Err::<PhotoStateChange, MutationError>(
                MutationError::Persistence,
            )
            &&& known && differs ==> result == Err::<PhotoStateChange, MutationError>(
                MutationError::Conflict,
            )
            &&& known && !differs && mutation.album_id is Some && !member ==> result == Err::<
                PhotoStateChange,
                MutationError,
            >(MutationError::NotFound)
            &&& known && !differs && !(mutation.album_id is Some && !member) && mutation.value
                is Selection ==> result is Ok
        },
{
    let views = rows_view(rows);
    lemma_first_index_found(row_ids(views), mutation.photo_id@);
    if forall|k: int|
        0 <= k < rows.len() ==> (#[trigger] rows[k]).photo_id@ != mutation.photo_id@ {
        if first_index(row_ids(views), mutation.photo_id@) is Some {
            let k = first_index(row_ids(views), mutation.photo_id@)->0;
            assert(row_ids(views)[k] == rows[k].photo_id@);
        }
    }
    if 0 <= i < rows.len() && rows[i].photo_id@ == mutation.photo_id@ {
        lemma_row_found(rows, i);
        lemma_selection_texts(rows[i].selection@, SelectionState::Undecided);
        lemma_selection_texts(rows[i].selection@, SelectionState::Selected);
        lemma_selection_texts(rows[i].selection@, SelectionState::Rejected);
    }
}

proof fn lemma_batch_untouched(
    rows: Seq<DecisionView>,
    items: Seq<PhotoStateBatchItem>,
    value: SelectionState,
    i: int,
)
    requires
        batch_after(rows, items, value) is Some,
        0 <= i < rows.len(),
        forall|k: int|
            0 <= k < items.len() ==> (#[trigger] items[k]).photo_id@ != rows[i].photo_id,
    ensures
        batch_after(rows, items, value)->0.rows.len() == rows.len(),
        batch_after(rows, items, value)->0.rows[i] == rows[i],
    decreases items.len(),
{
    if items.len() > 0 {
        let front = items.drop_last();
        assert forall|k: int| 0 <= k < front.len() implies (#[trigger] front[k]).photo_id@
            != rows[i].photo_id by {
            assert(items[k] == front[k]);
        }
        lemma_batch_untouched(rows, front, value, i);
        let before = batch_after(rows, front, value)->0;
        law_batch_partitions_the_request(rows, front, value);
        lemma_first_index_found(row_ids(before.rows), items.last().photo_id@);
        assert(row_ids(before.rows)[i] == rows[i].photo_id);
        assert(items.last() == items[items.len() - 1]);
    }
}

spec fn batch_item_told(
    rows: Seq<DecisionView>,
    item: PhotoStateBatchItem,
    value: SelectionState,
    end: BatchView,
) -> bool {
    let id = item.photo_id@;
    match first_index(row_ids(rows), id) {
        None => end.missing.contains(id),
        Some(i) => match selection_of(rows[i].selection) {
            None => false,
            Some(prior) => if prior != item.expected_current {
                end.changed.contains((id, prior)) && end.rows[i] == rows[i]
            } else {
                end.applied.contains((id, prior)) && end.rows[i] == with_value(
                    rows[i],
                    PhotoStateValue::Selection(value),
                )
            },
        },
    }
}

proof fn lemma_push_keeps<T>(list: Seq<T>, last: T, x: T)
    ensures
        list.contains(x) ==> list.push(last).contains(x),
        list.push(last).contains(last),
{
    let all = list.push(last);
    assert(all[list.len() as int] == last);
    if list.contains(x) {
        let i = choose|i: int| 0 <= i < list.len() && list[i] == x;
        assert(all[i] == x);
    }
}

proof fn lemma_batch_item(
    rows: Seq<DecisionView>,
    items: Seq<PhotoStateBatchItem>,
    value: SelectionState,
    k: int,
)
    requires
        batch_after(rows, items, value) is Some,
        0 <= k < items.len(),
        forall|a: int, b: int|
            0 <= a < b < items.len() ==> (#[trigger] items[a]).photo_id@ != (
            #[trigger] items[b]).photo_id@,
    ensures
        batch_item_told(rows, items[k], value, batch_after(rows, items, value)->0),
        batch_after(rows, items, value)->0.rows.len() == rows.len(),
    decreases items.len(),
{
    let front = items.drop_last();
    let before = batch_after(rows, front, value)->0;
    let end = batch_after(rows, items, value)->0;
    let item = items.last();
    law_batch_partitions_the_request(rows, front, value);
    law_batch_partitions_the_request(rows, items, value);
    assert(row_ids(before.rows).len() == row_ids(rows).len());
    lemma_first_index_found(row_ids(rows), item.photo_id@);
    lemma_first_index_found(row_ids(rows), items[k].photo_id@);
    let place = first_index(row_ids(rows), item.photo_id@);
    if k == items.len() - 1 {
        if place is Some {
            let i = place->0;
            assert(row_ids(rows)[i] == rows[i].photo_id);
            assert forall|a: int| 0 <= a < front.len() implies (#[trigger] front[a]).photo_id@
                != rows[i].photo_id by {
                assert(front[a] == items[a]);
                assert(items[a].photo_id@ != items[k].photo_id@);
            }
            lemma_batch_untouched(rows, front, value, i);
            let prior = selection_of(rows[i].selection)->0;
            lemma_push_keeps(before.changed, (item.photo_id@, prior), (item.photo_id@, prior));
            lemma_push_keeps(before.applied, (item.photo_id@, prior), (item.photo_id@, prior));
        } else {
            lemma_push_keeps(before.missing, item.photo_id@, item.photo_id@);
        }
    } else {
        assert forall|a: int, b: int| 0 <= a < b < front.len() implies (
        #[trigger] front[a]).photo_id@ != (#[trigger] front[b]).photo_id@ by {
            assert(front[a] == items[a]);
            assert(front[b] == items[b]);
        }
        lemma_batch_item(rows, front, value, k);
        assert(front[k] == items[k]);
        let id = items[k].photo_id@;
        assert(item == items[items.len() - 1]);
        assert(id != item.photo_id@);
        let own = first_index(row_ids(rows), id);
        if own is Some {
            let prior = selection_of(rows[own->0].selection)->0;
            if end.changed != before.changed {
                lemma_push_keeps(before.changed, end.changed.last(), (id, prior));
                assert(end.changed =~= before.changed.push(end.changed.last()));
            }
            if end.applied != before.applied {
                lemma_push_keeps(before.applied, end.applied.last(), (id, prior));
                assert(end.applied =~= before.applied.push(end.applied.last()));
            }
            if place is Some {
                assert(row_ids(rows)[place->0] != row_ids(rows)[own->0]);
                assert(end.rows[own->0] == before.rows[own->0]);
            }
        } else {
            if end.missing != before.missing {
                lemma_push_keeps(before.missing, end.missing.last(), id);
                assert(end.missing =~= before.missing.push(end.missing.last()));
            }
        }
    }
}

/// Each Photo of a batch of decisions is decided by itself. One that is not stored is
/// told as missing; one whose stored selection is not the expected one is told with the
/// selection that it has and stays; every other one gets the selection asked for, keeps
/// its rating, and is told with the selection that it had.
pub proof fn law_batches_decide_each_photo(
    rows: Seq<DecisionRow>,
    mutation: PhotoStateBatchMutation,
    change: PhotoStateBatchChange,
    k: int,
    i: int,
)
    requires
        batch_decided(rows_view(rows), mutation, Ok(change)),
        0 <= k < mutation.photos.len(),
        forall|a: int, b: int|
            0 <= a < b < rows.len() ==> (#[trigger] rows[a]).photo_id@ != (
            #[trigger] rows[b]).photo_id@,
        forall|a: int, b: int|
            0 <= a < b < mutation.photos.len() ==> (#[trigger] mutation.photos@[a]).photo_id@ != (
            #[trigger] mutation.photos@[b]).photo_id@,
    ensures
        ({
            let item = mutation.photos@[k];
            let found = 0 <= i < rows.len() && rows[i].photo_id@ == item.photo_id@;
            let expected = match item.expected_current {
                SelectionState::Undecided => rows[i].selection@ == "undecided"@,
                SelectionState::Selected => rows[i].selection@ == "selected"@,
                SelectionState::Rejected => rows[i].selection@ == "rejected"@,
            };
            &&& change.rows.len() == rows.len()
            &&& (forall|j: int|
                0 <= j < rows.len() ==> (#[trigger] rows[j]).photo_id@ != item.photo_id@)
                ==> exists|m: int|
                0 <= m < change.result.missing.len() && (
                #[trigger] change.result.missing@[m]).photo_id@ == item.photo_id@
            &&& found && expected ==> {
                &&& change.rows@[i].photo_id@ == item.photo_id@
                &&& change.rows@[i].rating == rows[i].rating
                &&& match mutation.value {
                    SelectionState::Undecided => change.rows@[i].selection@ == "undecided"@,
                    SelectionState::Selected => change.rows@[i].selection@ == "selected"@,
                    SelectionState::Rejected => change.rows@[i].selection@ == "rejected"@,
                }
                &&& exists|m: int|
                    0 <= m < change.result.applied.len() && (
                    #[trigger] change.result.applied@[m]).photo_id@ == item.photo_id@
                        && change.result.applied@[m].prior_value == item.expected_current
            }
            &&& found && !expected ==> {
                &&& change.rows@[i].photo_id@ == item.photo_id@
                &&& change.rows@[i].rating == rows[i].rating
                &&& change.rows@[i].selection@ == rows[i].selection@
                &&& exists|m: int|
                    0 <= m < change.result.changed_elsewhere.len() && (
                    #[trigger] change.result.changed_elsewhere@[m]).photo_id@ == item.photo_id@
                        && match change.result.changed_elsewhere@[m].current_value {
                        SelectionState::Undecided => rows[i].selection@ == "undecided"@,
                        SelectionState::Selected => rows[i].selection@ == "selected"@,
                        SelectionState::Rejected => rows[i].selection@ == "rejected"@,
                    }
            }
        }),
{
    let views = rows_view(rows);
    let items = mutation.photos@;
    let item = items[k];
    let id = item.photo_id@;
    let end = batch_after(views, items, mutation.value)->0;
    lemma_batch_item(views, items, mutation.value, k);
    lemma_first_index_found(row_ids(views), id);
    if forall|j: int| 0 <= j < rows.len() ==> (#[trigger] rows[j]).photo_id@ != id {
        if first_index(row_ids(views), id) is Some {
            let j = first_index(row_ids(views), id)->0;
            assert(row_ids(views)[j] == rows[j].photo_id@);
        }
        let m = choose|m: int| 0 <= m < end.missing.len() && end.missing[m] == id;
        assert(missing_view(change.result.missing@)[m] == change.result.missing@[m].photo_id@);
    }
    assert(rows_view(change.rows@).len() == change.rows.len());
    if 0 <= i < rows.len() && rows[i].photo_id@ == id {
        lemma_row_found(rows, i);
        assert(rows_view(change.rows@)[i] == change.rows@[i]@);
        lemma_selection_texts(rows[i].selection@, SelectionState::Undecided);
        lemma_selection_texts(rows[i].selection@, SelectionState::Selected);
        lemma_selection_texts(rows[i].selection@, SelectionState::Rejected);
        lemma_selection_texts(rows[i].selection@, mutation.value);
        let prior = selection_of(rows[i].selection@)->0;
        if prior == item.expected_current {
            let m = choose|m: int| 0 <= m < end.applied.len() && end.applied[m] == (id, prior);
            assert(applied_view(change.result.applied@)[m] == (
                change.result.applied@[m].photo_id@,
                change.result.applied@[m].prior_value,
            ));
        } else {
            let m = choose|m: int| 0 <= m < end.changed.len() && end.changed[m] == (id, prior);
            assert(changed_view(change.result.changed_elsewhere@)[m] == (
                change.result.changed_elsewhere@[m].photo_id@,
                change.result.changed_elsewhere@[m].current_value,
            ));
        }
    }
}

/// A batch of decisions leaves every Photo that it does not name as it was.
pub proof fn law_batches_leave_other_photos(
    rows: Seq<DecisionRow>,
    mutation: PhotoStateBatchMutation,
    change: PhotoStateBatchChange,
    i: int,
)
    requires
        batch_decided(rows_view(rows), mutation, Ok(change)),
        0 <= i < rows.len(),
        forall|k: int|
            0 <= k < mutation.photos.len() ==> (#[trigger] mutation.photos@[k]).photo_id@
                != rows[i].photo_id@,
    ensures
        change.rows.len() == rows.len(),
        change.rows@[i].photo_id@ == rows[i].photo_id@,
        change.rows@[i].selection@ == rows[i].selection@,
        change.rows@[i].rating == rows[i].rating,
{
    lemma_batch_untouched(rows_view(rows), mutation.photos@, mutation.value, i);
    assert(rows_view(change.rows@).len() == change.rows.len());
    assert(rows_view(change.rows@)[i] == change.rows@[i]@);
    assert(rows_view(rows)[i] == rows[i]@);
}

} // verus!
