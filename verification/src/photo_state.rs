//! Decisions about Photos: requests, and what makes one acceptable before any
//! state is read.
use crate::codec::{
    law_selection_name_reads_back, parse_selection_state, selection_name, selection_of,
    selection_state_value, SelectionState,
};
use crate::error::{MutationError, PhotoDecisionWriteError};
use crate::limits::{MAXIMUM_PHOTO_RATING, PHOTO_STATE_BATCH_MAX};
use crate::text::{blank, is_blank, same_text};
use vstd::prelude::*;
use vstd::string::*;

verus! {

/// A field of a Photo's decision.
#[derive(Clone, Copy, Debug, PartialEq, Eq, Structural)]
pub enum PhotoStateField {
    SelectionState,
    Rating,
}

/// A value of a Photo's decision.
#[derive(Clone, Copy, Debug, PartialEq, Eq, Structural)]
pub enum PhotoStateValue {
    Selection(SelectionState),
    Rating(u8),
}

/// A change of one field of one Photo, which may also save the browsing position
/// of an Album.
#[derive(Clone, Debug, PartialEq, Eq)]
pub struct PhotoStateMutation {
    pub photo_id: String,
    pub field: PhotoStateField,
    pub value: PhotoStateValue,
    pub expected_current: Option<PhotoStateValue>,
    pub album_id: Option<String>,
}

/// What undoes a change: the value to give back and the value it expects.
#[derive(Clone, Debug, PartialEq, Eq)]
pub struct PhotoStateUndo {
    pub photo_id: String,
    pub field: PhotoStateField,
    pub prior_value: PhotoStateValue,
    pub expected_current: PhotoStateValue,
}

/// The answer to a change of one Photo.
#[derive(Clone, Debug, PartialEq, Eq)]
pub struct PhotoStateMutationResult {
    pub photo_id: String,
    pub undo: PhotoStateUndo,
}

/// A Photo of a batch and the Selection State it is expected to have.
#[derive(Clone, Debug, PartialEq, Eq)]
pub struct PhotoStateBatchItem {
    pub photo_id: String,
    pub expected_current: SelectionState,
}

/// A change of the Selection State of a batch of Photos.
#[derive(Clone, Debug, PartialEq, Eq)]
pub struct PhotoStateBatchMutation {
    pub photos: Vec<PhotoStateBatchItem>,
    pub value: SelectionState,
}

/// A Photo whose Selection State was set.
#[derive(Clone, Debug, PartialEq, Eq)]
pub struct PhotoStateBatchApplied {
    pub photo_id: String,
    pub prior_value: SelectionState,
}

/// A Photo whose Selection State is not the expected one.
#[derive(Clone, Debug, PartialEq, Eq)]
pub struct PhotoStateBatchChangedElsewhere {
    pub photo_id: String,
    pub current_value: SelectionState,
}

/// A Photo that is not known.
#[derive(Clone, Debug, PartialEq, Eq)]
pub struct PhotoStateBatchMissing {
    pub photo_id: String,
}

/// The answer to a batch: each Photo of the request in exactly one list.
#[derive(Clone, Debug, PartialEq, Eq)]
pub struct PhotoStateBatchResult {
    pub applied: Vec<PhotoStateBatchApplied>,
    pub changed_elsewhere: Vec<PhotoStateBatchChangedElsewhere>,
    pub missing: Vec<PhotoStateBatchMissing>,
}

/// A Photo of a checked batch and the version it was decided on.
#[derive(Clone, Debug, PartialEq, Eq)]
pub struct CheckedPhotoDecisionItem {
    pub photo_id: String,
    pub expected_version: String,
}

/// A change of one field of a batch of Photos, each decided on a version.
#[derive(Clone, Debug, PartialEq, Eq)]
pub struct CheckedPhotoDecisionMutation {
    pub field: PhotoStateField,
    pub value: PhotoStateValue,
    pub photos: Vec<CheckedPhotoDecisionItem>,
}

/// A Photo's decision.
#[derive(Clone, Copy, Debug, PartialEq, Eq, Structural)]
pub struct PhotoDecisionFacts {
    pub selection_state: SelectionState,
    pub rating: u8,
}

/// A Photo's decision and its version.
#[derive(Clone, Debug, PartialEq, Eq)]
pub struct PhotoDecisionSnapshot {
    pub selection_state: SelectionState,
    pub rating: u8,
    pub decision_version: String,
}

/// What became of a Photo of a checked batch.
#[derive(Clone, Debug, PartialEq, Eq)]
pub enum CheckedPhotoDecisionOutcome {
    Missing,
    Conflict { current: PhotoDecisionSnapshot },
    Unchanged { current: PhotoDecisionSnapshot },
    Changed { prior: PhotoDecisionFacts, current: PhotoDecisionSnapshot },
}

/// A Photo of a checked batch and what became of it.
#[derive(Clone, Debug, PartialEq, Eq)]
pub struct CheckedPhotoDecisionItemResult {
    pub photo_id: String,
    pub outcome: CheckedPhotoDecisionOutcome,
}

/// How many Photos of a checked batch had each outcome.
#[derive(Clone, Copy, Debug, PartialEq, Eq, Structural)]
pub struct CheckedPhotoDecisionCounts {
    pub changed: usize,
    pub unchanged: usize,
    pub conflict: usize,
    pub missing: usize,
}

/// The answer to a checked batch, in the order of the request.
#[derive(Clone, Debug, PartialEq, Eq)]
pub struct CheckedPhotoDecisionResult {
    pub results: Vec<CheckedPhotoDecisionItemResult>,
    pub counts: CheckedPhotoDecisionCounts,
}

/// Whether a value is one of a field.
pub open spec fn value_fits(field: PhotoStateField, value: PhotoStateValue) -> bool {
    match field {
        PhotoStateField::SelectionState => value is Selection,
        PhotoStateField::Rating => value is Rating,
    }
}

/// Whether two values belong to the same field.
pub open spec fn same_kind(left: PhotoStateValue, right: PhotoStateValue) -> bool {
    left is Selection == right is Selection
}

fn fits(field: PhotoStateField, value: PhotoStateValue) -> (answer: bool)
    ensures
        answer == value_fits(field, value),
{
    match (field, value) {
        (PhotoStateField::SelectionState, PhotoStateValue::Selection(_)) => true,
        (PhotoStateField::Rating, PhotoStateValue::Rating(_)) => true,
        _ => false,
    }
}

/// The Photos that a list of batch items names.
pub open spec fn item_ids(items: Seq<PhotoStateBatchItem>) -> Seq<Seq<char>> {
    Seq::new(items.len(), |i: int| items[i].photo_id@)
}

/// The Photos that a list of checked items names.
pub open spec fn checked_ids(items: Seq<CheckedPhotoDecisionItem>) -> Seq<Seq<char>> {
    Seq::new(items.len(), |i: int| items[i].photo_id@)
}

/// Whether a list of checked items holds a blank Photo or an empty version.
pub open spec fn some_unnamed(items: Seq<CheckedPhotoDecisionItem>) -> bool {
    exists|i: int|
        0 <= i < items.len() && (blank((#[trigger] items[i]).photo_id@)
            || items[i].expected_version@.len() == 0)
}

/// Whether a value is a rating above the highest one.
pub open spec fn too_high(value: PhotoStateValue) -> bool {
    value matches PhotoStateValue::Rating(rating) && rating > MAXIMUM_PHOTO_RATING
}

pub(crate) fn is_too_high(value: PhotoStateValue) -> (answer: bool)
    ensures
        answer == too_high(value),
{
    match value {
        PhotoStateValue::Rating(rating) => rating > MAXIMUM_PHOTO_RATING,
        PhotoStateValue::Selection(_) => false,
    }
}

/// Why a checked batch is refused before any state is read.
pub open spec fn decision_refusal(mutation: CheckedPhotoDecisionMutation) -> Option<
    PhotoDecisionWriteError,
> {
    if !value_fits(mutation.field, mutation.value) || too_high(mutation.value) {
        Some(PhotoDecisionWriteError::Invalid)
    } else if mutation.photos.len() > PHOTO_STATE_BATCH_MAX {
        Some(
            PhotoDecisionWriteError::LimitExceeded {
                limit: PHOTO_STATE_BATCH_MAX,
                actual: mutation.photos.len(),
            },
        )
    } else if mutation.photos.len() == 0 || some_unnamed(mutation.photos@) || !checked_ids(
        mutation.photos@,
    ).no_duplicates() {
        Some(PhotoDecisionWriteError::Invalid)
    } else {
        None
    }
}

fn any_unnamed(items: &Vec<CheckedPhotoDecisionItem>) -> (answer: bool)
    ensures
        answer == some_unnamed(items@),
{
    let mut i: usize = 0;
    while i < items.len()
        invariant
            i <= items.len(),
            forall|j: int|
                0 <= j < i ==> !(blank((#[trigger] items@[j]).photo_id@)
                    || items@[j].expected_version@.len() == 0),
        decreases items.len() - i,
    {
        if is_blank(&items[i].photo_id) || items[i].expected_version.as_str().unicode_len() == 0 {
            assert(blank(items@[i as int].photo_id@) || items@[i as int].expected_version@.len()
                == 0);
            return true;
        }
        i = i + 1;
    }
    false
}

fn distinct_checked(items: &Vec<CheckedPhotoDecisionItem>) -> (distinct: bool)
    ensures
        distinct == checked_ids(items@).no_duplicates(),
{
    let ghost ids = checked_ids(items@);
    let mut i: usize = 0;
    while i < items.len()
        invariant
            i <= items.len(),
            ids == checked_ids(items@),
            forall|a: int, b: int| 0 <= a < b < i ==> ids[a] != ids[b],
        decreases items.len() - i,
    {
        let mut j: usize = 0;
        while j < i
            invariant
                j <= i < items.len(),
                ids == checked_ids(items@),
                forall|a: int| 0 <= a < j ==> ids[a] != ids[i as int],
            decreases i - j,
        {
            assert(ids[j as int] == items@[j as int].photo_id@);
            assert(ids[i as int] == items@[i as int].photo_id@);
            if same_text(&items[j].photo_id, &items[i].photo_id) {
                return false;
            }
            j = j + 1;
        }
        i = i + 1;
    }
    true
}

fn distinct_items(items: &Vec<PhotoStateBatchItem>) -> (distinct: bool)
    ensures
        distinct == item_ids(items@).no_duplicates(),
{
    let ghost ids = item_ids(items@);
    let mut i: usize = 0;
    while i < items.len()
        invariant
            i <= items.len(),
            ids == item_ids(items@),
            forall|a: int, b: int| 0 <= a < b < i ==> ids[a] != ids[b],
        decreases items.len() - i,
    {
        let mut j: usize = 0;
        while j < i
            invariant
                j <= i < items.len(),
                ids == item_ids(items@),
                forall|a: int| 0 <= a < j ==> ids[a] != ids[i as int],
            decreases i - j,
        {
            assert(ids[j as int] == items@[j as int].photo_id@);
            assert(ids[i as int] == items@[i as int].photo_id@);
            if same_text(&items[j].photo_id, &items[i].photo_id) {
                return false;
            }
            j = j + 1;
        }
        i = i + 1;
    }
    true
}

/// Accepts a checked batch as it stands, or refuses it before any state is read.
pub fn normalize_checked_photo_decision_mutation(mutation: CheckedPhotoDecisionMutation) -> (result:
    Result<CheckedPhotoDecisionMutation, PhotoDecisionWriteError>)
    ensures
        result == (match decision_refusal(mutation) {
            Some(error) => Err::<CheckedPhotoDecisionMutation, PhotoDecisionWriteError>(error),
            None => Ok::<CheckedPhotoDecisionMutation, PhotoDecisionWriteError>(mutation),
        }),
{
    if !fits(mutation.field, mutation.value) || is_too_high(mutation.value) {
        return Err(PhotoDecisionWriteError::Invalid);
    }
    if mutation.photos.len() > PHOTO_STATE_BATCH_MAX {
        return Err(
            PhotoDecisionWriteError::LimitExceeded {
                limit: PHOTO_STATE_BATCH_MAX,
                actual: mutation.photos.len(),
            },
        );
    }
    if mutation.photos.len() == 0 || any_unnamed(&mutation.photos) || !distinct_checked(
        &mutation.photos,
    ) {
        return Err(PhotoDecisionWriteError::Invalid);
    }
    Ok(mutation)
}

/// Accepts a change of one Photo whose values belong to its field.
pub fn validate_photo_state_mutation(mutation: &PhotoStateMutation) -> (result: Result<
    (),
    MutationError,
>)
    ensures
        result == (if (mutation.expected_current is Some && !same_kind(
            mutation.expected_current->0,
            mutation.value,
        )) || !value_fits(mutation.field, mutation.value) {
            Err::<(), MutationError>(MutationError::Conflict)
        } else {
            Ok::<(), MutationError>(())
        }),
{
    match mutation.expected_current {
        Some(expected) => match (expected, mutation.value) {
            (PhotoStateValue::Selection(_), PhotoStateValue::Selection(_)) => {},
            (PhotoStateValue::Rating(_), PhotoStateValue::Rating(_)) => {},
            _ => {
                return Err(MutationError::Conflict);
            },
        },
        None => {},
    }
    if fits(mutation.field, mutation.value) {
        Ok(())
    } else {
        Err(MutationError::Conflict)
    }
}

/// Whether a batch of Selection States is malformed: it undecides, names no
/// Photo, too many, one twice, or an empty one.
pub open spec fn malformed_state_batch(mutation: PhotoStateBatchMutation) -> bool {
    ||| mutation.value == SelectionState::Undecided
    ||| mutation.photos.len() == 0
    ||| mutation.photos.len() > PHOTO_STATE_BATCH_MAX
    ||| !item_ids(mutation.photos@).no_duplicates()
    ||| exists|i: int|
        0 <= i < mutation.photos.len() && (#[trigger] mutation.photos@[i]).photo_id@.len() == 0
}

/// Accepts a batch of Selection States that is not malformed.
pub fn validate_photo_state_batch_mutation(mutation: &PhotoStateBatchMutation) -> (result: Result<
    (),
    MutationError,
>)
    ensures
        result == (if malformed_state_batch(*mutation) {
            Err::<(), MutationError>(MutationError::Invalid)
        } else {
            Ok::<(), MutationError>(())
        }),
{
    if mutation.value == SelectionState::Undecided || mutation.photos.len() == 0
        || mutation.photos.len() > PHOTO_STATE_BATCH_MAX || !distinct_items(&mutation.photos) {
        return Err(MutationError::Invalid);
    }
    let mut i: usize = 0;
    while i < mutation.photos.len()
        invariant
            i <= mutation.photos.len(),
            forall|j: int| 0 <= j < i ==> (#[trigger] mutation.photos@[j]).photo_id@.len() != 0,
        decreases mutation.photos.len() - i,
    {
        if mutation.photos[i].photo_id.as_str().unicode_len() == 0 {
            assert(mutation.photos@[i as int].photo_id@.len() == 0);
            return Err(MutationError::Invalid);
        }
        i = i + 1;
    }
    Ok(())
}

/// The stored decision of a Photo.
#[derive(Clone, Debug, PartialEq, Eq)]
pub struct DecisionRow {
    pub photo_id: String,
    pub selection: String,
    pub rating: i64,
}

/// What a [`DecisionRow`] stands for.
pub struct DecisionView {
    pub photo_id: Seq<char>,
    pub selection: Seq<char>,
    pub rating: int,
}

impl View for DecisionRow {
    type V = DecisionView;

    open spec fn view(&self) -> DecisionView {
        DecisionView {
            photo_id: self.photo_id@,
            selection: self.selection@,
            rating: self.rating as int,
        }
    }
}

/// What a list of stored decisions stands for.
pub open spec fn rows_view(rows: Seq<DecisionRow>) -> Seq<DecisionView> {
    Seq::new(rows.len(), |i: int| rows[i]@)
}

/// The Photos of a list of stored decisions.
pub open spec fn row_ids(rows: Seq<DecisionView>) -> Seq<Seq<char>> {
    Seq::new(rows.len(), |i: int| rows[i].photo_id)
}

/// The value that a stored decision has in a field, if it can be read.
pub open spec fn stored_value(
    selection: Seq<char>,
    rating: int,
    field: PhotoStateField,
) -> Option<PhotoStateValue> {
    match field {
        PhotoStateField::SelectionState => match selection_of(selection) {
            Some(state) => Some(PhotoStateValue::Selection(state)),
            None => None,
        },
        PhotoStateField::Rating => if 0 <= rating <= u8::MAX {
            Some(PhotoStateValue::Rating(rating as u8))
        } else {
            None
        },
    }
}

/// Reads one field of a stored decision.
pub fn state_value(selection: &String, rating: i64, field: PhotoStateField) -> (result: Result<
    PhotoStateValue,
    MutationError,
>)
    ensures
        result == (match stored_value(selection@, rating as int, field) {
            Some(value) => Ok::<PhotoStateValue, MutationError>(value),
            None => Err::<PhotoStateValue, MutationError>(MutationError::Persistence),
        }),
{
    match field {
        PhotoStateField::SelectionState => match parse_selection_state(selection) {
            Some(state) => Ok(PhotoStateValue::Selection(state)),
            None => Err(MutationError::Persistence),
        },
        PhotoStateField::Rating => if 0 <= rating && rating <= u8::MAX as i64 {
            Ok(PhotoStateValue::Rating(rating as u8))
        } else {
            Err(MutationError::Persistence)
        },
    }
}

/// A stored decision with one value set.
pub open spec fn with_value(row: DecisionView, value: PhotoStateValue) -> DecisionView {
    match value {
        PhotoStateValue::Selection(state) => DecisionView {
            selection: selection_name(state),
            ..row
        },
        PhotoStateValue::Rating(rating) => DecisionView { rating: rating as int, ..row },
    }
}

/// A copy of a stored decision with one value set.
pub fn set_value(row: &DecisionRow, value: PhotoStateValue) -> (next: DecisionRow)
    ensures
        next@ == with_value(row@, value),
{
    match value {
        PhotoStateValue::Selection(state) => DecisionRow {
            photo_id: row.photo_id.clone(),
            selection: selection_state_value(state).to_owned(),
            rating: row.rating,
        },
        PhotoStateValue::Rating(rating) => DecisionRow {
            photo_id: row.photo_id.clone(),
            selection: row.selection.clone(),
            rating: rating as i64,
        },
    }
}

/// A value that was set is the value that is read.
pub proof fn law_set_value_reads_back(row: DecisionView, field: PhotoStateField, value: PhotoStateValue)
    requires
        value_fits(field, value),
    ensures
        stored_value(with_value(row, value).selection, with_value(row, value).rating, field)
            == Some(value),
{
    match value {
        PhotoStateValue::Selection(state) => {
            law_selection_name_reads_back(state);
        },
        PhotoStateValue::Rating(_) => {},
    }
}

/// A decision is accepted where its value is of the field that it decides and what it
/// expects is a value of the same kind; any other one is a conflict.
pub proof fn law_decisions_fit_their_field(
    mutation: PhotoStateMutation,
    result: Result<(), MutationError>,
)
    requires
        call_ensures(validate_photo_state_mutation, (&mutation,), result),
    ensures
        result is Err ==> result->Err_0 == MutationError::Conflict,
        mutation.field == PhotoStateField::Rating && mutation.value is Selection ==> result is Err,
        mutation.field == PhotoStateField::SelectionState && mutation.value is Rating ==> result
            is Err,
        mutation.expected_current is Some && mutation.expected_current->0 is Rating
            && mutation.value is Selection ==> result is Err,
        mutation.expected_current is Some && mutation.expected_current->0 is Selection
            && mutation.value is Rating ==> result is Err,
        mutation.field == PhotoStateField::Rating && mutation.value is Rating && (
        mutation.expected_current is None || mutation.expected_current->0 is Rating) ==> result
            is Ok,
        mutation.field == PhotoStateField::SelectionState && mutation.value is Selection && (
        mutation.expected_current is None || mutation.expected_current->0 is Selection) ==> result
            is Ok,
{
}

/// A batch of decisions selects or rejects one to a hundred Photos, each named once; any
/// other one is invalid.
pub proof fn law_decision_batches_are_bounded(
    mutation: PhotoStateBatchMutation,
    result: Result<(), MutationError>,
)
    requires
        call_ensures(validate_photo_state_batch_mutation, (&mutation,), result),
    ensures
        result is Err ==> result->Err_0 == MutationError::Invalid,
        result is Ok <==> mutation.value != SelectionState::Undecided && 1
            <= mutation.photos.len() <= 100 && item_ids(mutation.photos@).no_duplicates()
            && forall|i: int|
            0 <= i < mutation.photos.len() ==> (#[trigger] mutation.photos@[i]).photo_id@.len()
                > 0,
{
}

/// A checked decision is accepted where its value is of the field that it decides, a
/// rating is at most five, and it names one to a hundred Photos, each once and with a
/// version. One that names more is told so; any other one is invalid.
pub proof fn law_checked_decisions_are_bounded(
    mutation: CheckedPhotoDecisionMutation,
    result: Result<CheckedPhotoDecisionMutation, PhotoDecisionWriteError>,
)
    requires
        call_ensures(normalize_checked_photo_decision_mutation, (mutation,), result),
    ensures
        ({
            let fitting = (mutation.field == PhotoStateField::Rating && mutation.value is Rating
                && mutation.value->Rating_0 <= 5) || (mutation.field
                == PhotoStateField::SelectionState && mutation.value is Selection);
            let named = forall|i: int|
                0 <= i < mutation.photos.len() ==> !blank(
                    (#[trigger] mutation.photos@[i]).photo_id@,
                ) && mutation.photos@[i].expected_version@.len() > 0;
            &&& !fitting ==> result == Err::<
                CheckedPhotoDecisionMutation,
                PhotoDecisionWriteError,
            >(PhotoDecisionWriteError::Invalid)
            &&& fitting && mutation.photos.len() > 100 ==> result is Err && result->Err_0
                is LimitExceeded && result->Err_0->limit == 100 && result->Err_0->actual
                == mutation.photos.len()
            &&& fitting && mutation.photos.len() <= 100 ==> (result is Ok
                <==> mutation.photos.len() > 0 && named && checked_ids(
                mutation.photos@,
            ).no_duplicates())
            &&& result is Ok ==> result->Ok_0 == mutation
        }),
{
}

} // verus!
