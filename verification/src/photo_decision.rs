//! Decisions about Photos that name the version they were made on, and how
//! versions move once a decision is committed.
use crate::codec::{
    law_selections_are_stored_by_name, parse_selection_state, selection_of, SelectionState,
};
use crate::error::{
    photo_decision_write_error_from_mutation, photo_decision_write_error_of, MutationError,
    PhotoDecisionWriteError,
};
use crate::photo_change::{
    batch_after, clone_rows, index_of_row, mutate_photo_state, mutate_photo_state_batch,
    photo_state_decided, PhotoStateBatchChange, PhotoStateChange,
};
use crate::photo_state::{
    checked_ids, is_too_high, row_ids, rows_view, set_value, too_high, with_value,
    CheckedPhotoDecisionCounts, CheckedPhotoDecisionItem, CheckedPhotoDecisionItemResult, CheckedPhotoDecisionMutation,
    CheckedPhotoDecisionOutcome, CheckedPhotoDecisionResult, DecisionRow, DecisionView,
    PhotoDecisionFacts, PhotoDecisionSnapshot, PhotoStateBatchItem, PhotoStateBatchMutation,
    PhotoStateBatchResult, PhotoStateField, PhotoStateMutation, PhotoStateMutationResult,
    PhotoStateValue,
};
use crate::text::{first_index, lemma_first_index_found, lemma_texts_push, same_text, texts};
use crate::versions::{count_of, law_tokens_are_unique, token_text, MutationVersions};
use vstd::prelude::*;
use vstd::string::*;

verus! {

/// The decision that a stored row holds, if it can be read.
pub open spec fn decision_of(row: DecisionView) -> Option<PhotoDecisionFacts> {
    match selection_of(row.selection) {
        Some(selection_state) => if 0 <= row.rating <= u8::MAX {
            Some(PhotoDecisionFacts { selection_state, rating: row.rating as u8 })
        } else {
            None
        },
        None => None,
    }
}

/// The value of a decision in a field.
pub open spec fn value_in(facts: PhotoDecisionFacts, field: PhotoStateField) -> PhotoStateValue {
    match field {
        PhotoStateField::SelectionState => PhotoStateValue::Selection(facts.selection_state),
        PhotoStateField::Rating => PhotoStateValue::Rating(facts.rating),
    }
}

/// A decision with one field set; a value of another field sets nothing.
pub open spec fn decision_with(
    facts: PhotoDecisionFacts,
    field: PhotoStateField,
    value: PhotoStateValue,
) -> PhotoDecisionFacts {
    match (field, value) {
        (PhotoStateField::SelectionState, PhotoStateValue::Selection(state)) => PhotoDecisionFacts {
            selection_state: state,
            ..facts
        },
        (PhotoStateField::Rating, PhotoStateValue::Rating(rating)) => PhotoDecisionFacts {
            rating,
            ..facts
        },
        _ => facts,
    }
}

/// Whether a snapshot tells a decision and a version.
pub open spec fn tells_decision(
    snapshot: PhotoDecisionSnapshot,
    facts: PhotoDecisionFacts,
    version: Seq<char>,
) -> bool {
    &&& snapshot.selection_state == facts.selection_state
    &&& snapshot.rating == facts.rating
    &&& snapshot.decision_version@ == version
}

/// The current decision of a Photo together with its version.
pub fn photo_decision_snapshot(
    versions: &MutationVersions,
    facts: PhotoDecisionFacts,
    photo_id: &str,
) -> (snapshot: PhotoDecisionSnapshot)
    ensures
        tells_decision(snapshot, facts, versions.photo_token(photo_id@)),
{
    PhotoDecisionSnapshot {
        selection_state: facts.selection_state,
        rating: facts.rating,
        decision_version: versions.photo(photo_id),
    }
}

/// The version of a Photo after one more change.
pub open spec fn photo_version_after(versions: MutationVersions, id: Seq<char>) -> Seq<char> {
    token_text(versions.epoch@, "photo"@, id, (count_of(versions.photo@, id) + 1) as nat)
}

/// Whether an item of a checked batch is effective: its Photo is known, its
/// version is the current one, and its value is another one.
pub open spec fn effective(
    versions: MutationVersions,
    rows: Seq<DecisionView>,
    item: CheckedPhotoDecisionItem,
    field: PhotoStateField,
    value: PhotoStateValue,
) -> bool {
    match first_index(row_ids(rows), item.photo_id@) {
        None => false,
        Some(i) => versions.photo_token(item.photo_id@) == item.expected_version@ && value_in(
            decision_of(rows[i])->0,
            field,
        ) != value,
    }
}

/// What an item of a checked batch is answered. The version is compared before
/// the value, so a decision that changed away and back still conflicts.
pub open spec fn outcome_told(
    versions: MutationVersions,
    rows: Seq<DecisionView>,
    item: CheckedPhotoDecisionItem,
    field: PhotoStateField,
    value: PhotoStateValue,
    outcome: CheckedPhotoDecisionOutcome,
) -> bool {
    let id = item.photo_id@;
    match first_index(row_ids(rows), id) {
        None => outcome is Missing,
        Some(i) => {
            let facts = decision_of(rows[i])->0;
            if versions.photo_token(id) != item.expected_version@ {
                &&& outcome matches CheckedPhotoDecisionOutcome::Conflict { current }
                &&& tells_decision(current, facts, versions.photo_token(id))
            } else if value_in(facts, field) == value {
                &&& outcome matches CheckedPhotoDecisionOutcome::Unchanged { current }
                &&& tells_decision(current, facts, versions.photo_token(id))
            } else {
                &&& outcome matches CheckedPhotoDecisionOutcome::Changed { prior, current }
                &&& prior == facts
                &&& tells_decision(
                    current,
                    decision_with(facts, field, value),
                    photo_version_after(versions, id),
                )
            }
        },
    }
}

/// Whether the stored decision of every known Photo of a batch can be read.
pub open spec fn all_readable(
    rows: Seq<DecisionView>,
    items: Seq<CheckedPhotoDecisionItem>,
) -> bool {
    forall|k: int|
        0 <= k < items.len() ==> (first_index(
            row_ids(rows),
            (#[trigger] items[k]).photo_id@,
        ) matches Some(i) ==> decision_of(rows[i]) is Some)
}

/// The Photos of the effective items of a batch, in order.
pub open spec fn effective_ids(
    versions: MutationVersions,
    rows: Seq<DecisionView>,
    items: Seq<CheckedPhotoDecisionItem>,
    field: PhotoStateField,
    value: PhotoStateValue,
) -> Seq<Seq<char>>
    decreases items.len(),
{
    if items.len() == 0 {
        Seq::empty()
    } else {
        let before = effective_ids(versions, rows, items.drop_last(), field, value);
        if effective(versions, rows, items.last(), field, value) {
            before.push(items.last().photo_id@)
        } else {
            before
        }
    }
}

/// The stored decisions after the effective items of a batch.
pub open spec fn decided_rows(
    versions: MutationVersions,
    rows: Seq<DecisionView>,
    items: Seq<CheckedPhotoDecisionItem>,
    field: PhotoStateField,
    value: PhotoStateValue,
) -> Seq<DecisionView>
    decreases items.len(),
{
    if items.len() == 0 {
        rows
    } else {
        let before = decided_rows(versions, rows, items.drop_last(), field, value);
        if effective(versions, rows, items.last(), field, value) {
            let i = first_index(row_ids(rows), items.last().photo_id@)->0;
            before.update(i, with_value(before[i], value))
        } else {
            before
        }
    }
}

/// How many of the first results are of each kind: changed, unchanged,
/// conflicting and missing.
pub open spec fn counted(results: Seq<CheckedPhotoDecisionItemResult>) -> (nat, nat, nat, nat)
    decreases results.len(),
{
    if results.len() == 0 {
        (0, 0, 0, 0)
    } else {
        let (changed, unchanged, conflict, missing) = counted(results.drop_last());
        match results.last().outcome {
            CheckedPhotoDecisionOutcome::Changed { .. } => (
                changed + 1,
                unchanged,
                conflict,
                missing,
            ),
            CheckedPhotoDecisionOutcome::Unchanged { .. } => (
                changed,
                unchanged + 1,
                conflict,
                missing,
            ),
            CheckedPhotoDecisionOutcome::Conflict { .. } => (
                changed,
                unchanged,
                conflict + 1,
                missing,
            ),
            CheckedPhotoDecisionOutcome::Missing => (changed, unchanged, conflict, missing + 1),
        }
    }
}

/// Whether counts are those of a list of results.
pub open spec fn counts_told(
    counts: CheckedPhotoDecisionCounts,
    results: Seq<CheckedPhotoDecisionItemResult>,
) -> bool {
    counted(results) == (
        counts.changed as nat,
        counts.unchanged as nat,
        counts.conflict as nat,
        counts.missing as nat,
    )
}

/// A decided checked batch: the stored decisions after it, the Photos whose
/// version moves, and the answer.
#[derive(Clone, Debug, PartialEq, Eq)]
pub struct PhotoDecisionChange {
    pub rows: Vec<DecisionRow>,
    pub effective: Vec<String>,
    pub result: CheckedPhotoDecisionResult,
}

/// Whether the version of some effective Photo cannot move.
pub open spec fn some_stuck(versions: MutationVersions, ids: Seq<Seq<char>>) -> bool {
    exists|k: int| 0 <= k < ids.len() && count_of(versions.photo@, #[trigger] ids[k]) == u64::MAX
}

/// What a checked batch decides: every item is answered in the order of the
/// request, and only effective items change anything. Nothing is changed to a
/// rating that the database has not.
pub open spec fn decision_decided(
    versions: MutationVersions,
    rows: Seq<DecisionView>,
    mutation: CheckedPhotoDecisionMutation,
    result: Result<PhotoDecisionChange, PhotoDecisionWriteError>,
) -> bool {
    let items = mutation.photos@;
    let ids = effective_ids(versions, rows, items, mutation.field, mutation.value);
    if !all_readable(rows, items) || some_stuck(versions, ids) || (ids.len() > 0 && too_high(
        mutation.value,
    )) {
        result == Err::<PhotoDecisionChange, PhotoDecisionWriteError>(
            PhotoDecisionWriteError::Persistence,
        )
    } else {
        &&& result matches Ok(change)
        &&& rows_view(change.rows@) == decided_rows(
            versions,
            rows,
            items,
            mutation.field,
            mutation.value,
        )
        &&& texts(change.effective@) == ids
        &&& change.result.results.len() == items.len()
        &&& forall|k: int|
            0 <= k < items.len() ==> (#[trigger] change.result.results@[k]).photo_id@
                == items[k].photo_id@ && outcome_told(
                versions,
                rows,
                items[k],
                mutation.field,
                mutation.value,
                change.result.results@[k].outcome,
            )
        &&& counts_told(change.result.counts, change.result.results@)
    }
}

fn read_decision(row: &DecisionRow) -> (facts: Option<PhotoDecisionFacts>)
    ensures
        facts == decision_of(row@),
{
    match parse_selection_state(&row.selection) {
        Some(selection_state) => if 0 <= row.rating && row.rating <= u8::MAX as i64 {
            Some(PhotoDecisionFacts { selection_state, rating: row.rating as u8 })
        } else {
            None
        },
        None => None,
    }
}

fn read_value(facts: PhotoDecisionFacts, field: PhotoStateField) -> (value: PhotoStateValue)
    ensures
        value == value_in(facts, field),
{
    match field {
        PhotoStateField::SelectionState => PhotoStateValue::Selection(facts.selection_state),
        PhotoStateField::Rating => PhotoStateValue::Rating(facts.rating),
    }
}

fn decide_value(facts: PhotoDecisionFacts, field: PhotoStateField, value: PhotoStateValue) -> (next:
    PhotoDecisionFacts)
    ensures
        next == decision_with(facts, field, value),
{
    match (field, value) {
        (PhotoStateField::SelectionState, PhotoStateValue::Selection(state)) => PhotoDecisionFacts {
            selection_state: state,
            rating: facts.rating,
        },
        (PhotoStateField::Rating, PhotoStateValue::Rating(rating)) => PhotoDecisionFacts {
            selection_state: facts.selection_state,
            rating,
        },
        _ => facts,
    }
}

proof fn lemma_effective_grows(
    versions: MutationVersions,
    rows: Seq<DecisionView>,
    items: Seq<CheckedPhotoDecisionItem>,
    field: PhotoStateField,
    value: PhotoStateValue,
    n: int,
)
    requires
        0 <= n <= items.len(),
    ensures
        effective_ids(versions, rows, items.take(n), field, value).is_prefix_of(
            effective_ids(versions, rows, items, field, value),
        ),
    decreases items.len(),
{
    if n < items.len() {
        lemma_effective_grows(versions, rows, items.drop_last(), field, value, n);
        assert(items.drop_last().take(n) =~= items.take(n));
    } else {
        assert(items.take(n) =~= items);
    }
}

proof fn lemma_decided_rows_len(
    versions: MutationVersions,
    rows: Seq<DecisionView>,
    items: Seq<CheckedPhotoDecisionItem>,
    field: PhotoStateField,
    value: PhotoStateValue,
)
    ensures
        decided_rows(versions, rows, items, field, value).len() == rows.len(),
        row_ids(decided_rows(versions, rows, items, field, value)) == row_ids(rows),
    decreases items.len(),
{
    if items.len() > 0 {
        let before = decided_rows(versions, rows, items.drop_last(), field, value);
        lemma_decided_rows_len(versions, rows, items.drop_last(), field, value);
        lemma_first_index_found(row_ids(rows), items.last().photo_id@);
        if effective(versions, rows, items.last(), field, value) {
            let i = first_index(row_ids(rows), items.last().photo_id@)->0;
            assert(before[i].photo_id == row_ids(before)[i]);
        }
        assert(row_ids(decided_rows(versions, rows, items, field, value)) =~= row_ids(before));
    } else {
        assert(row_ids(decided_rows(versions, rows, items, field, value)) =~= row_ids(rows));
    }
}

/// Decides a checked batch. Nothing has changed yet: the answer holds once the
/// change is committed.
#[verifier::rlimit(60)]
pub fn mutate_photo_decision_checked(
    versions: &MutationVersions,
    rows: &Vec<DecisionRow>,
    mutation: &CheckedPhotoDecisionMutation,
) -> (result: Result<PhotoDecisionChange, PhotoDecisionWriteError>)
    requires
        checked_ids(mutation.photos@).no_duplicates(),
    ensures
        decision_decided(*versions, rows_view(rows@), *mutation, result),
{
    let ghost start = rows_view(rows@);
    let ghost items = mutation.photos@;
    let field: PhotoStateField = mutation.field;
    let value: PhotoStateValue = mutation.value;
    let mut next: Vec<DecisionRow> = clone_rows(rows);
    let mut moved: Vec<String> = Vec::new();
    let mut results: Vec<CheckedPhotoDecisionItemResult> = Vec::new();
    let mut counts: CheckedPhotoDecisionCounts = CheckedPhotoDecisionCounts {
        changed: 0,
        unchanged: 0,
        conflict: 0,
        missing: 0,
    };
    let mut blocked: bool = false;
    let mut k: usize = 0;
    assert(texts(moved@) =~= effective_ids(*versions, start, items.take(0), field, value));
    while k < mutation.photos.len()
        invariant
            k <= mutation.photos.len(),
            start == rows_view(rows@),
            items == mutation.photos@,
            field == mutation.field,
            value == mutation.value,
            results.len() == k,
            counts.changed <= k,
            counts.unchanged <= k,
            counts.conflict <= k,
            counts.missing <= k,
            all_readable(start, items.take(k as int)),
            rows_view(next@) == decided_rows(*versions, start, items.take(k as int), field, value),
            texts(moved@) == effective_ids(*versions, start, items.take(k as int), field, value),
            blocked == some_stuck(*versions, texts(moved@)),
            !blocked ==> forall|j: int|
                0 <= j < k ==> (#[trigger] results@[j]).photo_id@ == items[j].photo_id@
                    && outcome_told(*versions, start, items[j], field, value, results@[j].outcome),
            counts_told(counts, results@),
        decreases mutation.photos.len() - k,
    {
        let ghost taken = items.take(k + 1);
        proof {
            assert(taken.drop_last() =~= items.take(k as int));
            assert(taken.last() == items[k as int]);
            lemma_decided_rows_len(*versions, start, items.take(k as int), field, value);
            lemma_effective_grows(*versions, start, items, field, value, k as int);
        }
        let item: &CheckedPhotoDecisionItem = &mutation.photos[k];
        let ghost before = results@;
        let outcome: CheckedPhotoDecisionOutcome;
        match index_of_row(rows, &item.photo_id) {
            None => {
                counts.missing = counts.missing + 1;
                outcome = CheckedPhotoDecisionOutcome::Missing;
            },
            Some(at) => {
                let facts: PhotoDecisionFacts = match read_decision(&rows[at]) {
                    None => {
                        assert(!all_readable(start, items)) by {
                            assert(items[k as int].photo_id@ == item.photo_id@);
                        }
                        return Err(PhotoDecisionWriteError::Persistence);
                    },
                    Some(facts) => facts,
                };
                let current: PhotoDecisionSnapshot = photo_decision_snapshot(
                    versions,
                    facts,
                    item.photo_id.as_str(),
                );
                if !same_text(&current.decision_version, &item.expected_version) {
                    counts.conflict = counts.conflict + 1;
                    outcome = CheckedPhotoDecisionOutcome::Conflict { current };
                } else if read_value(facts, field) == value {
                    counts.unchanged = counts.unchanged + 1;
                    outcome = CheckedPhotoDecisionOutcome::Unchanged { current };
                } else {
                    counts.changed = counts.changed + 1;
                    let after: PhotoDecisionFacts = decide_value(facts, field, value);
                    let can: bool = versions.can_advance_photo(item.photo_id.as_str());
                    let version: String = versions.photo_after(item.photo_id.as_str(), can);
                    outcome = CheckedPhotoDecisionOutcome::Changed {
                        prior: facts,
                        current: PhotoDecisionSnapshot {
                            selection_state: after.selection_state,
                            rating: after.rating,
                            decision_version: version,
                        },
                    };
                    let row: DecisionRow = set_value(&next[at], value);
                    let ghost rows_before = rows_view(next@);
                    next[at] = row;
                    let ghost moved_before = texts(moved@);
                    proof {
                        assert(rows_view(next@) =~= rows_before.update(at as int, row@));
                        lemma_texts_push(moved@, items[k as int].photo_id);
                    }
                    moved.push(item.photo_id.clone());
                    assert(some_stuck(*versions, texts(moved@)) == (some_stuck(
                        *versions,
                        moved_before,
                    ) || !can)) by {
                        let all = texts(moved@);
                        assert(all == moved_before.push(item.photo_id@));
                        assert(all[moved_before.len() as int] == item.photo_id@);
                        if some_stuck(*versions, moved_before) {
                            let j = choose|j: int|
                                0 <= j < moved_before.len() && count_of(
                                    versions.photo@,
                                    #[trigger] moved_before[j],
                                ) == u64::MAX;
                            assert(all[j] == moved_before[j]);
                        }
                        if some_stuck(*versions, all) && can {
                            let j = choose|j: int|
                                0 <= j < all.len() && count_of(versions.photo@, #[trigger] all[j])
                                    == u64::MAX;
                            assert(all[j] == moved_before[j]);
                        }
                    }
                    if !can {
                        blocked = true;
                    }
                }
            },
        }
        let entry: CheckedPhotoDecisionItemResult = CheckedPhotoDecisionItemResult {
            photo_id: item.photo_id.clone(),
            outcome,
        };
        results.push(entry);
        proof {
            assert(results@.drop_last() =~= before);
            assert(results@.last() == entry);
            assert forall|j: int| 0 <= j < taken.len() implies (first_index(
                row_ids(start),
                (#[trigger] taken[j]).photo_id@,
            ) matches Some(i) ==> decision_of(start[i]) is Some) by {
                if j < k {
                    assert(taken[j] == items.take(k as int)[j]);
                }
            }
        }
        k = k + 1;
    }
    assert(items.take(items.len() as int) =~= items);
    assert(texts(moved@).len() == moved.len());
    if blocked || (moved.len() > 0 && is_too_high(value)) {
        return Err(PhotoDecisionWriteError::Persistence);
    }
    Ok(
        PhotoDecisionChange {
            rows: next,
            effective: moved,
            result: CheckedPhotoDecisionResult { results, counts },
        },
    )
}


/// The counters after counting one change of each Photo of a list, and whether
/// every one of them could grow. Counting stops at the first that cannot.
pub open spec fn advance_all(counters: Map<Seq<char>, u64>, ids: Seq<Seq<char>>) -> (
    Map<Seq<char>, u64>,
    bool,
)
    decreases ids.len(),
{
    if ids.len() == 0 {
        (counters, true)
    } else {
        let (before, all) = advance_all(counters, ids.drop_last());
        let id = ids.last();
        if all && count_of(before, id) < u64::MAX {
            (before.insert(id, (count_of(before, id) + 1) as u64), true)
        } else {
            (before, false)
        }
    }
}

proof fn lemma_advance_all_stopped(counters: Map<Seq<char>, u64>, ids: Seq<Seq<char>>, n: int)
    requires
        0 <= n <= ids.len(),
        !advance_all(counters, ids.take(n)).1,
    ensures
        advance_all(counters, ids) == advance_all(counters, ids.take(n)),
    decreases ids.len(),
{
    if n < ids.len() {
        assert(ids.drop_last().take(n) =~= ids.take(n));
        lemma_advance_all_stopped(counters, ids.drop_last(), n);
    } else {
        assert(ids.take(n) =~= ids);
    }
}

/// Settles a checked batch once its transaction ended: a failed commit moves no
/// version and is told as a failure, a committed one counts every effective
/// Photo and is answered.
pub fn settle_photo_decision(
    versions: &mut MutationVersions,
    change: PhotoDecisionChange,
    committed: Result<(), MutationError>,
) -> (result: Result<CheckedPhotoDecisionResult, PhotoDecisionWriteError>)
    ensures
        final(versions).epoch == old(versions).epoch,
        final(versions).album@ == old(versions).album@,
        match committed {
            Err(error) => final(versions).photo@ == old(versions).photo@ && result == Err::<
                CheckedPhotoDecisionResult,
                PhotoDecisionWriteError,
            >(photo_decision_write_error_of(error)),
            Ok(_) => {
                let (after, all) = advance_all(old(versions).photo@, texts(change.effective@));
                final(versions).photo@ == after && result == (if all {
                    Ok::<CheckedPhotoDecisionResult, PhotoDecisionWriteError>(change.result)
                } else {
                    Err::<CheckedPhotoDecisionResult, PhotoDecisionWriteError>(
                        PhotoDecisionWriteError::Persistence,
                    )
                })
            },
        },
{
    let ghost start = versions.photo@;
    let ghost ids = texts(change.effective@);
    match committed {
        Err(error) => Err(photo_decision_write_error_from_mutation(error)),
        Ok(_) => {
            let mut k: usize = 0;
            while k < change.effective.len()
                invariant
                    k <= change.effective.len(),
                    committed is Ok,
                    ids == texts(change.effective@),
                    start == old(versions).photo@,
                    versions.epoch == old(versions).epoch,
                    versions.album@ == old(versions).album@,
                    advance_all(start, ids.take(k as int)) == (versions.photo@, true),
                decreases change.effective.len() - k,
            {
                let ghost taken = ids.take(k + 1);
                proof {
                    assert(taken.drop_last() =~= ids.take(k as int));
                    assert(taken.last() == change.effective@[k as int]@);
                }
                match versions.advance_photo(change.effective[k].as_str()) {
                    Err(error) => {
                        proof {
                            lemma_advance_all_stopped(start, ids, k + 1);
                        }
                        return Err(photo_decision_write_error_from_mutation(error));
                    },
                    Ok(_) => {},
                }
                k = k + 1;
            }
            assert(ids.take(ids.len() as int) =~= ids);
            Ok(change.result)
        },
    }
}

/// What a change of one Photo decides: it is refused while the Photo's version
/// cannot move.
pub open spec fn photo_planned(
    versions: MutationVersions,
    rows: Seq<DecisionView>,
    member: bool,
    mutation: PhotoStateMutation,
    result: Result<PhotoStateChange, MutationError>,
) -> bool {
    if count_of(versions.photo@, mutation.photo_id@) == u64::MAX {
        result == Err::<PhotoStateChange, MutationError>(MutationError::Persistence)
    } else {
        photo_state_decided(rows, member, mutation, result)
    }
}

/// Decides a change of one Photo, which is refused while the Photo's version
/// cannot move.
pub fn plan_photo_state(
    versions: &MutationVersions,
    rows: &Vec<DecisionRow>,
    member: bool,
    mutation: &PhotoStateMutation,
) -> (result: Result<PhotoStateChange, MutationError>)
    ensures
        photo_planned(*versions, rows_view(rows@), member, *mutation, result),
{
    if !versions.can_advance_photo(mutation.photo_id.as_str()) {
        return Err(MutationError::Persistence);
    }
    mutate_photo_state(rows, member, mutation)
}

/// Whether the counters of Photos after a decision, and its answer, are what becomes of
/// it.
pub open spec fn photo_state_settled(
    before: Map<Seq<char>, u64>,
    change: PhotoStateChange,
    committed: Result<(), MutationError>,
    after: Map<Seq<char>, u64>,
    result: Result<PhotoStateMutationResult, MutationError>,
) -> bool {
    match committed {
        Err(error) => after == before && result == Err::<
            PhotoStateMutationResult,
            MutationError,
        >(error),
        Ok(_) => after == (if change.result.undo.prior_value
            != change.result.undo.expected_current && count_of(
            before,
            change.result.photo_id@,
        ) < u64::MAX {
            before.insert(
                change.result.photo_id@,
                (count_of(before, change.result.photo_id@) + 1) as u64,
            )
        } else {
            before
        }) && result == Ok::<PhotoStateMutationResult, MutationError>(change.result),
    }
}

/// Settles a change of one Photo once its transaction ended: it counts when the
/// value is another one than before.
pub fn settle_photo_state(
    versions: &mut MutationVersions,
    change: PhotoStateChange,
    committed: Result<(), MutationError>,
) -> (result: Result<PhotoStateMutationResult, MutationError>)
    ensures
        final(versions).epoch == old(versions).epoch,
        final(versions).album@ == old(versions).album@,
        photo_state_settled(old(versions).photo@, change, committed, final(versions).photo@, result),
{
    match committed {
        Err(error) => Err(error),
        Ok(_) => {
            if change.result.undo.prior_value != change.result.undo.expected_current {
                let _ = versions.advance_photo(change.result.photo_id.as_str());
            }
            Ok(change.result)
        },
    }
}

/// Whether the version of every Photo of a batch can move.
pub open spec fn batch_can_advance(
    counters: Map<Seq<char>, u64>,
    items: Seq<PhotoStateBatchItem>,
) -> bool {
    forall|k: int|
        0 <= k < items.len() ==> count_of(counters, (#[trigger] items[k]).photo_id@) < u64::MAX
}

/// What a batch of Selection States decides: it is refused while the version of
/// one of its Photos cannot move, or a stored value cannot be read.
pub open spec fn batch_planned(
    versions: MutationVersions,
    rows: Seq<DecisionView>,
    mutation: PhotoStateBatchMutation,
    result: Result<PhotoStateBatchChange, MutationError>,
) -> bool {
    match batch_after(rows, mutation.photos@, mutation.value) {
        Some(end) if batch_can_advance(versions.photo@, mutation.photos@) => {
            &&& result matches Ok(change)
            &&& rows_view(change.rows@) == end.rows
            &&& crate::photo_change::applied_view(change.result.applied@) == end.applied
            &&& crate::photo_change::changed_view(change.result.changed_elsewhere@) == end.changed
            &&& crate::photo_change::missing_view(change.result.missing@) == end.missing
        },
        _ => result == Err::<PhotoStateBatchChange, MutationError>(MutationError::Persistence),
    }
}

/// Decides a batch of Selection States, which is refused while the version of one
/// of its Photos cannot move.
pub fn plan_photo_state_batch(
    versions: &MutationVersions,
    rows: &Vec<DecisionRow>,
    mutation: &PhotoStateBatchMutation,
) -> (result: Result<PhotoStateBatchChange, MutationError>)
    ensures
        batch_planned(*versions, rows_view(rows@), *mutation, result),
{
    let mut k: usize = 0;
    while k < mutation.photos.len()
        invariant
            k <= mutation.photos.len(),
            forall|j: int|
                0 <= j < k ==> count_of(
                    versions.photo@,
                    (#[trigger] mutation.photos@[j]).photo_id@,
                ) < u64::MAX,
        decreases mutation.photos.len() - k,
    {
        if !versions.can_advance_photo(mutation.photos[k].photo_id.as_str()) {
            assert(!(count_of(versions.photo@, mutation.photos@[k as int].photo_id@) < u64::MAX));
            return Err(MutationError::Persistence);
        }
        k = k + 1;
    }
    mutate_photo_state_batch(rows, mutation)
}

/// The counters after a committed batch: each Photo whose Selection State is
/// another one than before counts, while it can.
pub open spec fn batch_counters(
    counters: Map<Seq<char>, u64>,
    applied: Seq<(Seq<char>, SelectionState)>,
    value: SelectionState,
) -> Map<Seq<char>, u64>
    decreases applied.len(),
{
    if applied.len() == 0 {
        counters
    } else {
        let before = batch_counters(counters, applied.drop_last(), value);
        let (id, prior) = applied.last();
        if prior != value && count_of(before, id) < u64::MAX {
            before.insert(id, (count_of(before, id) + 1) as u64)
        } else {
            before
        }
    }
}

/// Whether the counters of Photos after a batch of decisions, and its answer, are what
/// becomes of it.
pub open spec fn photo_batch_settled(
    before: Map<Seq<char>, u64>,
    value: SelectionState,
    change: PhotoStateBatchChange,
    committed: Result<(), MutationError>,
    after: Map<Seq<char>, u64>,
    result: Result<PhotoStateBatchResult, MutationError>,
) -> bool {
    match committed {
        Err(error) => after == before && result == Err::<
            PhotoStateBatchResult,
            MutationError,
        >(error),
        Ok(_) => after == batch_counters(
            before,
            crate::photo_change::applied_view(change.result.applied@),
            value,
        ) && result == Ok::<PhotoStateBatchResult, MutationError>(change.result),
    }
}

/// Settles a batch of Selection States once its transaction ended.
pub fn settle_photo_state_batch(
    versions: &mut MutationVersions,
    value: SelectionState,
    change: PhotoStateBatchChange,
    committed: Result<(), MutationError>,
) -> (result: Result<PhotoStateBatchResult, MutationError>)
    ensures
        final(versions).epoch == old(versions).epoch,
        final(versions).album@ == old(versions).album@,
        photo_batch_settled(
            old(versions).photo@,
            value,
            change,
            committed,
            final(versions).photo@,
            result,
        ),
{
    let ghost start = versions.photo@;
    let ghost applied = crate::photo_change::applied_view(change.result.applied@);
    match committed {
        Err(error) => Err(error),
        Ok(_) => {
            let mut k: usize = 0;
            while k < change.result.applied.len()
                invariant
                    k <= change.result.applied.len(),
                    applied == crate::photo_change::applied_view(change.result.applied@),
                    start == old(versions).photo@,
                    versions.epoch == old(versions).epoch,
                    versions.album@ == old(versions).album@,
                    versions.photo@ == batch_counters(start, applied.take(k as int), value),
                decreases change.result.applied.len() - k,
            {
                let ghost taken = applied.take(k + 1);
                proof {
                    assert(taken.drop_last() =~= applied.take(k as int));
                    assert(taken.last() == (
                        change.result.applied@[k as int].photo_id@,
                        change.result.applied@[k as int].prior_value,
                    ));
                }
                if change.result.applied[k].prior_value != value {
                    let _ = versions.advance_photo(change.result.applied[k].photo_id.as_str());
                }
                k = k + 1;
            }
            assert(applied.take(applied.len() as int) =~= applied);
            Ok(change.result)
        },
    }
}

proof fn lemma_advance_all_counts(
    counters: Map<Seq<char>, u64>,
    ids: Seq<Seq<char>>,
    x: Seq<char>,
)
    requires
        ids.no_duplicates(),
        forall|k: int| 0 <= k < ids.len() ==> count_of(counters, #[trigger] ids[k]) < u64::MAX,
    ensures
        advance_all(counters, ids).1,
        count_of(advance_all(counters, ids).0, x) == (if ids.contains(x) {
            count_of(counters, x) + 1
        } else {
            count_of(counters, x) as int
        }),
    decreases ids.len(),
{
    if ids.len() > 0 {
        let front = ids.drop_last();
        let id = ids.last();
        assert forall|k: int| 0 <= k < front.len() implies count_of(counters, #[trigger] front[k])
            < u64::MAX by {
            assert(front[k] == ids[k]);
        }
        lemma_advance_all_counts(counters, front, x);
        lemma_advance_all_counts(counters, front, id);
        assert(ids[ids.len() - 1] == id);
        assert(!front.contains(id)) by {
            if front.contains(id) {
                let i = choose|i: int| 0 <= i < front.len() && front[i] == id;
                assert(ids[i] == ids[ids.len() - 1]);
            }
        }
        assert(front.push(id) =~= ids);
        if ids.contains(x) && x != id {
            let i = choose|i: int| 0 <= i < ids.len() && ids[i] == x;
            assert(front[i] == x);
        }
        if front.contains(x) {
            let i = choose|i: int| 0 <= i < front.len() && front[i] == x;
            assert(ids[i] == x);
        }
    }
}

proof fn lemma_effective_distinct(
    versions: MutationVersions,
    rows: Seq<DecisionView>,
    items: Seq<CheckedPhotoDecisionItem>,
    field: PhotoStateField,
    value: PhotoStateValue,
)
    requires
        checked_ids(items).no_duplicates(),
    ensures
        effective_ids(versions, rows, items, field, value).no_duplicates(),
        forall|x: Seq<char>| #[trigger]
            effective_ids(versions, rows, items, field, value).contains(x) <==> exists|k: int|
                0 <= k < items.len() && (#[trigger] items[k]).photo_id@ == x && effective(
                    versions,
                    rows,
                    items[k],
                    field,
                    value,
                ),
    decreases items.len(),
{
    if items.len() > 0 {
        let front = items.drop_last();
        assert forall|i: int, j: int|
            0 <= i < front.len() && 0 <= j < front.len() && i != j implies checked_ids(front)[i]
            != checked_ids(front)[j] by {
            assert(checked_ids(items)[i] != checked_ids(items)[j]);
        }
        lemma_effective_distinct(versions, rows, front, field, value);
        let before = effective_ids(versions, rows, front, field, value);
        let after = effective_ids(versions, rows, items, field, value);
        let last = items.last();
        assert(!before.contains(last.photo_id@)) by {
            if before.contains(last.photo_id@) {
                let k = choose|k: int|
                    0 <= k < front.len() && (#[trigger] front[k]).photo_id@ == last.photo_id@
                        && effective(versions, rows, front[k], field, value);
                assert(checked_ids(items)[k] == checked_ids(items)[items.len() - 1]);
            }
        }
        assert forall|x: Seq<char>| #[trigger] after.contains(x) <==> exists|k: int|
            0 <= k < items.len() && (#[trigger] items[k]).photo_id@ == x && effective(
                versions,
                rows,
                items[k],
                field,
                value,
            ) by {
            if after.contains(x) {
                let j = choose|j: int| 0 <= j < after.len() && after[j] == x;
                if j < before.len() {
                    assert(before[j] == x);
                    assert(before.contains(x));
                    let k = choose|k: int|
                        0 <= k < front.len() && (#[trigger] front[k]).photo_id@ == x && effective(
                            versions,
                            rows,
                            front[k],
                            field,
                            value,
                        );
                    assert(items[k] == front[k]);
                } else {
                    assert(items[items.len() - 1] == last);
                }
            }
            if exists|k: int|
                0 <= k < items.len() && (#[trigger] items[k]).photo_id@ == x && effective(
                    versions,
                    rows,
                    items[k],
                    field,
                    value,
                ) {
                let k = choose|k: int|
                    0 <= k < items.len() && (#[trigger] items[k]).photo_id@ == x && effective(
                        versions,
                        rows,
                        items[k],
                        field,
                        value,
                    );
                if k < front.len() {
                    assert(front[k] == items[k]);
                    assert(before.contains(x));
                    let j = choose|j: int| 0 <= j < before.len() && before[j] == x;
                    assert(after[j] == x);
                } else {
                    assert(after[before.len() as int] == x);
                }
            }
        }
        if effective(versions, rows, last, field, value) {
            assert forall|i: int, j: int|
                0 <= i < after.len() && 0 <= j < after.len() && i != j implies after[i]
                != after[j] by {
                if i < before.len() && j < before.len() {
                } else if i < before.len() {
                    assert(before.contains(before[i]));
                } else {
                    assert(before.contains(before[j]));
                }
            }
        }
    }
}

/// After a checked batch is committed, the version of each effective Photo is the
/// one its answer told, and every other version is the one it was.
pub proof fn law_decisions_tell_the_committed_versions(
    before: MutationVersions,
    after: MutationVersions,
    rows: Seq<DecisionView>,
    mutation: CheckedPhotoDecisionMutation,
    change: PhotoDecisionChange,
    x: Seq<char>,
)
    requires
        checked_ids(mutation.photos@).no_duplicates(),
        decision_decided(before, rows, mutation, Ok(change)),
        after.epoch == before.epoch,
        after.photo@ == advance_all(before.photo@, texts(change.effective@)).0,
    ensures
        texts(change.effective@).contains(x) ==> after.photo_token(x) == photo_version_after(
            before,
            x,
        ),
        !texts(change.effective@).contains(x) ==> after.photo_token(x) == before.photo_token(x),
{
    let ids = texts(change.effective@);
    lemma_effective_distinct(before, rows, mutation.photos@, mutation.field, mutation.value);
    assert forall|k: int| 0 <= k < ids.len() implies count_of(before.photo@, #[trigger] ids[k])
        < u64::MAX by {
        assert(!some_stuck(before, ids));
    }
    lemma_advance_all_counts(before.photo@, ids, x);
}

/// A decision made on an earlier version always conflicts, whatever its value.
pub proof fn law_earlier_decisions_conflict(
    versions: MutationVersions,
    rows: Seq<DecisionView>,
    item: CheckedPhotoDecisionItem,
    field: PhotoStateField,
    value: PhotoStateValue,
    outcome: CheckedPhotoDecisionOutcome,
    seen: nat,
)
    requires
        first_index(row_ids(rows), item.photo_id@) is Some,
        item.expected_version@ == token_text(
            versions.epoch@,
            "photo"@,
            item.photo_id@,
            seen,
        ),
        seen != count_of(versions.photo@, item.photo_id@),
        outcome_told(versions, rows, item, field, value, outcome),
    ensures
        outcome is Conflict,
        !effective(versions, rows, item, field, value),
{
    let id = item.photo_id@;
    let current = count_of(versions.photo@, id) as nat;
    if versions.photo_token(id) == item.expected_version@ {
        law_tokens_are_unique(versions.epoch@, "photo"@, id, current, id, seen);
    }
}

/// A checked batch answers every item: the counts add up to the request.
pub proof fn law_counts_cover_the_request(results: Seq<CheckedPhotoDecisionItemResult>)
    ensures
        ({
            let (changed, unchanged, conflict, missing) = counted(results);
            changed + unchanged + conflict + missing == results.len()
        }),
    decreases results.len(),
{
    if results.len() > 0 {
        law_counts_cover_the_request(results.drop_last());
    }
}

/// A checked batch changes no stored decision but those of its effective Photos,
/// and of those only the field that it sets.
pub proof fn law_decisions_change_one_field(
    versions: MutationVersions,
    rows: Seq<DecisionView>,
    items: Seq<CheckedPhotoDecisionItem>,
    field: PhotoStateField,
    value: PhotoStateValue,
    i: int,
)
    requires
        0 <= i < rows.len(),
    ensures
        decided_rows(versions, rows, items, field, value).len() == rows.len(),
        decided_rows(versions, rows, items, field, value)[i] == rows[i] || (effective_ids(
            versions,
            rows,
            items,
            field,
            value,
        ).contains(rows[i].photo_id) && decided_rows(versions, rows, items, field, value)[i]
            == with_value(rows[i], value)),
    decreases items.len(),
{
    lemma_decided_rows_len(versions, rows, items, field, value);
    if items.len() > 0 {
        law_decisions_change_one_field(versions, rows, items.drop_last(), field, value, i);
        let before = effective_ids(versions, rows, items.drop_last(), field, value);
        let last = items.last();
        lemma_first_index_found(row_ids(rows), last.photo_id@);
        if effective(versions, rows, last, field, value) {
            let at = first_index(row_ids(rows), last.photo_id@)->0;
            let after = before.push(last.photo_id@);
            if at == i {
                assert(row_ids(rows)[i] == rows[i].photo_id);
                assert(after[before.len() as int] == rows[i].photo_id);
            } else if before.contains(rows[i].photo_id) {
                let j = choose|j: int| 0 <= j < before.len() && before[j] == rows[i].photo_id;
                assert(after[j] == rows[i].photo_id);
            }
        }
    }
}

proof fn lemma_decided_row(
    versions: MutationVersions,
    rows: Seq<DecisionView>,
    items: Seq<CheckedPhotoDecisionItem>,
    field: PhotoStateField,
    value: PhotoStateValue,
    k: int,
)
    requires
        0 <= k < items.len(),
        checked_ids(items).no_duplicates(),
        first_index(row_ids(rows), items[k].photo_id@) is Some,
    ensures
        ({
            let i = first_index(row_ids(rows), items[k].photo_id@)->0;
            decided_rows(versions, rows, items, field, value)[i] == (if effective(
                versions,
                rows,
                items[k],
                field,
                value,
            ) {
                with_value(rows[i], value)
            } else {
                rows[i]
            })
        }),
    decreases items.len(),
{
    let front = items.drop_last();
    let i = first_index(row_ids(rows), items[k].photo_id@)->0;
    lemma_first_index_found(row_ids(rows), items[k].photo_id@);
    assert(row_ids(rows)[i] == rows[i].photo_id);
    assert(checked_ids(front) =~= checked_ids(items).drop_last());
    let before = decided_rows(versions, rows, front, field, value);
    lemma_decided_rows_len(versions, rows, front, field, value);
    if k == items.len() - 1 {
        law_decisions_change_one_field(versions, rows, front, field, value, i);
        lemma_effective_distinct(versions, rows, front, field, value);
        if effective_ids(versions, rows, front, field, value).contains(rows[i].photo_id) {
            let a = choose|a: int|
                0 <= a < front.len() && (#[trigger] front[a]).photo_id@ == rows[i].photo_id
                    && effective(versions, rows, front[a], field, value);
            assert(checked_ids(items)[a] == checked_ids(items)[k]);
        }
    } else {
        lemma_decided_row(versions, rows, front, field, value, k);
        assert(front[k] == items[k]);
        let last = items.last();
        lemma_first_index_found(row_ids(rows), last.photo_id@);
        if effective(versions, rows, last, field, value) {
            let j = first_index(row_ids(rows), last.photo_id@)->0;
            assert(checked_ids(items)[items.len() - 1] == last.photo_id@);
            assert(checked_ids(items)[k] == items[k].photo_id@);
            assert(i != j);
        }
    }
}

/// Each Photo of a checked decision is decided by itself. One that is not stored is told
/// as missing. One whose version is not the named one is told as a conflict, with its
/// stored rating, selection and version, and stays. One that holds the value already is
/// told as unchanged and stays. Every other one gets the value in the field that is
/// decided, keeps the other field, and is told with what it held before and holds now.
pub proof fn law_checked_decisions_decide_each_photo(
    versions: MutationVersions,
    rows: Seq<DecisionRow>,
    mutation: CheckedPhotoDecisionMutation,
    change: PhotoDecisionChange,
    k: int,
    i: int,
)
    requires
        decision_decided(versions, rows_view(rows), mutation, Ok(change)),
        checked_ids(mutation.photos@).no_duplicates(),
        0 <= k < mutation.photos.len(),
        forall|a: int, b: int|
            0 <= a < b < rows.len() ==> (#[trigger] rows[a]).photo_id@ != (
            #[trigger] rows[b]).photo_id@,
    ensures
        ({
            let item = mutation.photos@[k];
            let outcome = change.result.results@[k].outcome;
            let found = 0 <= i < rows.len() && rows[i].photo_id@ == item.photo_id@;
            let token = versions.photo_token(item.photo_id@);
            let next = change.rows@[i];
            let rated = mutation.field == PhotoStateField::Rating && mutation.value is Rating;
            let selected = mutation.field == PhotoStateField::SelectionState && mutation.value
                is Selection;
            &&& change.rows.len() == rows.len()
            &&& change.result.results.len() == mutation.photos.len()
            &&& change.result.results@[k].photo_id@ == item.photo_id@
            &&& (forall|j: int|
                0 <= j < rows.len() ==> (#[trigger] rows[j]).photo_id@ != item.photo_id@)
                ==> outcome is Missing
            &&& found && item.expected_version@ != token ==> {
                &&& outcome is Conflict
                &&& outcome->Conflict_current.rating == rows[i].rating
                &&& selection_of(rows[i].selection@) == Some(
                    outcome->Conflict_current.selection_state,
                )
                &&& outcome->Conflict_current.decision_version@ == token
                &&& next.rating == rows[i].rating
                &&& next.selection@ == rows[i].selection@
            }
            &&& found && item.expected_version@ == token && rated ==> {
                let rating = mutation.value->Rating_0;
                &&& rating == rows[i].rating ==> outcome is Unchanged
                    && outcome->Unchanged_current.rating == rating
                    && outcome->Unchanged_current.decision_version@ == token && next.rating
                    == rows[i].rating && next.selection@ == rows[i].selection@
                &&& rating != rows[i].rating ==> {
                    &&& rating <= 5
                    &&& outcome is Changed
                    &&& outcome->prior.rating == rows[i].rating
                    &&& selection_of(rows[i].selection@) == Some(outcome->prior.selection_state)
                    &&& outcome->Changed_current.rating == rating
                    &&& outcome->Changed_current.selection_state == outcome->prior.selection_state
                    &&& outcome->Changed_current.decision_version@ != token
                    &&& next.photo_id@ == item.photo_id@
                    &&& next.rating == rating
                    &&& next.selection@ == rows[i].selection@
                }
            }
            &&& found && item.expected_version@ == token && selected ==> {
                let state = mutation.value->Selection_0;
                let same = match state {
                    SelectionState::Undecided => rows[i].selection@ == "undecided"@,
                    SelectionState::Selected => rows[i].selection@ == "selected"@,
                    SelectionState::Rejected => rows[i].selection@ == "rejected"@,
                };
                &&& same ==> outcome is Unchanged && outcome->Unchanged_current.selection_state
                    == state && outcome->Unchanged_current.decision_version@ == token
                    && next.selection@ == rows[i].selection@ && next.rating == rows[i].rating
                &&& !same ==> {
                    &&& outcome is Changed
                    &&& outcome->prior.rating == rows[i].rating
                    &&& selection_of(rows[i].selection@) == Some(outcome->prior.selection_state)
                    &&& outcome->Changed_current.selection_state == state
                    &&& outcome->Changed_current.rating == rows[i].rating
                    &&& outcome->Changed_current.decision_version@ != token
                    &&& next.photo_id@ == item.photo_id@
                    &&& next.rating == rows[i].rating
                    &&& match state {
                        SelectionState::Undecided => next.selection@ == "undecided"@,
                        SelectionState::Selected => next.selection@ == "selected"@,
                        SelectionState::Rejected => next.selection@ == "rejected"@,
                    }
                }
            }
            &&& outcome is Changed <==> texts(change.effective@).contains(item.photo_id@)
        }),
{
    let views = rows_view(rows);
    let items = mutation.photos@;
    let item = items[k];
    let id = item.photo_id@;
    let field = mutation.field;
    let value = mutation.value;
    let outcome = change.result.results@[k].outcome;
    lemma_decided_rows_len(versions, views, items, field, value);
    assert(rows_view(change.rows@).len() == change.rows.len());
    lemma_first_index_found(row_ids(views), id);
    assert(outcome_told(versions, views, item, field, value, outcome));
    lemma_effective_distinct(versions, views, items, field, value);
    let ids = effective_ids(versions, views, items, field, value);
    if ids.contains(id) {
        let a = choose|a: int|
            0 <= a < items.len() && (#[trigger] items[a]).photo_id@ == id && effective(
                versions,
                views,
                items[a],
                field,
                value,
            );
        assert(checked_ids(items)[a] == checked_ids(items)[k]);
    }
    if effective(versions, views, item, field, value) {
        assert(ids.contains(id));
    }
    if versions.photo_token(id) == photo_version_after(versions, id) {
        law_tokens_are_unique(
            versions.epoch@,
            "photo"@,
            id,
            count_of(versions.photo@, id) as nat,
            id,
            (count_of(versions.photo@, id) + 1) as nat,
        );
    }
    if forall|j: int| 0 <= j < rows.len() ==> (#[trigger] rows[j]).photo_id@ != id {
        if first_index(row_ids(views), id) is Some {
            let j = first_index(row_ids(views), id)->0;
            assert(row_ids(views)[j] == rows[j].photo_id@);
        }
    }
    if 0 <= i < rows.len() && rows[i].photo_id@ == id {
        assert(row_ids(views)[i] == id);
        let j = first_index(row_ids(views), id)->0;
        assert(row_ids(views)[j] == rows[j].photo_id@);
        assert(i == j);
        assert(views[i] == rows[i]@);
        assert(rows_view(change.rows@)[i] == change.rows@[i]@);
        lemma_decided_row(versions, views, items, field, value, k);
        law_selections_are_stored_by_name(rows[i].selection@);
        assert(decision_of(views[i]) is Some);
        if effective(versions, views, item, field, value) {
            assert(ids.len() > 0);
        }
    }
}

/// A checked decision leaves every Photo that it does not name as it was.
pub proof fn law_checked_decisions_leave_other_photos(
    versions: MutationVersions,
    rows: Seq<DecisionRow>,
    mutation: CheckedPhotoDecisionMutation,
    change: PhotoDecisionChange,
    i: int,
)
    requires
        decision_decided(versions, rows_view(rows), mutation, Ok(change)),
        checked_ids(mutation.photos@).no_duplicates(),
        0 <= i < rows.len(),
        forall|k: int|
            0 <= k < mutation.photos.len() ==> (#[trigger] mutation.photos@[k]).photo_id@
                != rows[i].photo_id@,
    ensures
        change.rows.len() == rows.len(),
        change.rows@[i].photo_id@ == rows[i].photo_id@,
        change.rows@[i].selection@ == rows[i].selection@,
        change.rows@[i].rating == rows[i].rating,
{
    let views = rows_view(rows);
    let items = mutation.photos@;
    law_decisions_change_one_field(versions, views, items, mutation.field, mutation.value, i);
    lemma_effective_distinct(versions, views, items, mutation.field, mutation.value);
    assert(rows_view(change.rows@).len() == change.rows.len());
    assert(rows_view(change.rows@)[i] == change.rows@[i]@);
    assert(views[i] == rows[i]@);
}

/// The counts of a checked decision count its results: one result more adds one to the
/// count of its outcome and nothing to the others.
pub proof fn law_counts_count_the_results(
    results: Seq<CheckedPhotoDecisionItemResult>,
    result: CheckedPhotoDecisionItemResult,
    before: CheckedPhotoDecisionCounts,
    after: CheckedPhotoDecisionCounts,
)
    requires
        counts_told(before, results),
        counts_told(after, results.push(result)),
    ensures
        after.changed - before.changed == (if result.outcome is Changed {
            1int
        } else {
            0
        }),
        after.unchanged - before.unchanged == (if result.outcome is Unchanged {
            1int
        } else {
            0
        }),
        after.conflict - before.conflict == (if result.outcome is Conflict {
            1int
        } else {
            0
        }),
        after.missing - before.missing == (if result.outcome is Missing {
            1int
        } else {
            0
        }),
        results.len() == 0 ==> before.changed == 0 && before.unchanged == 0 && before.conflict == 0
            && before.missing == 0,
{
    assert(results.push(result).drop_last() =~= results);
    assert(results.push(result).last() == result);
}

/// A decision about one Photo that is committed moves the version of that Photo by one
/// where the value changed, and moves no other; one that is not committed moves none, and
/// is answered by its error.
pub proof fn law_committed_decisions_move_one_version(
    before: Map<Seq<char>, u64>,
    change: PhotoStateChange,
    committed: Result<(), MutationError>,
    after: Map<Seq<char>, u64>,
    result: Result<PhotoStateMutationResult, MutationError>,
    other: Seq<char>,
)
    requires
        photo_state_settled(before, change, committed, after, result),
    ensures
        ({
            let id = change.result.photo_id@;
            let moved = change.result.undo.prior_value != change.result.undo.expected_current;
            &&& committed is Err ==> after == before && result is Err && result->Err_0
                == committed->Err_0
            &&& committed is Ok ==> result == Ok::<PhotoStateMutationResult, MutationError>(
                change.result,
            )
            &&& committed is Ok && moved && count_of(before, id) < u64::MAX ==> count_of(after, id)
                == count_of(before, id) + 1
            &&& committed is Ok && !moved ==> count_of(after, id) == count_of(before, id)
            &&& other != id ==> count_of(after, other) == count_of(before, other)
        }),
{
}

proof fn lemma_batch_counters(
    counters: Map<Seq<char>, u64>,
    applied: Seq<(Seq<char>, SelectionState)>,
    value: SelectionState,
    x: Seq<char>,
)
    requires
        forall|a: int, b: int|
            0 <= a < b < applied.len() ==> (#[trigger] applied[a]).0 != (#[trigger] applied[b]).0,
    ensures
        (forall|k: int| 0 <= k < applied.len() ==> (#[trigger] applied[k]).0 != x) ==> count_of(
            batch_counters(counters, applied, value),
            x,
        ) == count_of(counters, x),
        forall|k: int|
            0 <= k < applied.len() && (#[trigger] applied[k]).0 == x && count_of(counters, x)
                < u64::MAX ==> count_of(batch_counters(counters, applied, value), x) == count_of(
                counters,
                x,
            ) + (if applied[k].1 != value {
                1int
            } else {
                0
            }),
    decreases applied.len(),
{
    if applied.len() > 0 {
        let front = applied.drop_last();
        assert forall|a: int, b: int| 0 <= a < b < front.len() implies (#[trigger] front[a]).0 != (
        #[trigger] front[b]).0 by {
            assert(front[a] == applied[a]);
            assert(front[b] == applied[b]);
        }
        lemma_batch_counters(counters, front, value, x);
        let last = applied.last();
        assert(last == applied[applied.len() - 1]);
        if last.0 == x {
            assert forall|k: int| 0 <= k < front.len() implies (#[trigger] front[k]).0 != x by {
                assert(front[k] == applied[k]);
            }
        } else {
            if forall|k: int| 0 <= k < applied.len() ==> (#[trigger] applied[k]).0 != x {
                assert forall|k: int| 0 <= k < front.len() implies (#[trigger] front[k]).0 != x by {
                    assert(front[k] == applied[k]);
                }
            }
        }
        assert forall|k: int|
            0 <= k < applied.len() && (#[trigger] applied[k]).0 == x && count_of(counters, x)
                < u64::MAX implies count_of(batch_counters(counters, applied, value), x)
            == count_of(counters, x) + (if applied[k].1 != value {
            1int
        } else {
            0
        }) by {
            if k < front.len() {
                assert(front[k] == applied[k]);
                assert(last.0 != x);
            }
        }
    }
}

/// A committed batch of decisions moves the version of each Photo whose selection it
/// changed by one, and no other version; a batch that is not committed moves none.
pub proof fn law_committed_batches_move_changed_versions(
    before: Map<Seq<char>, u64>,
    value: SelectionState,
    change: PhotoStateBatchChange,
    committed: Result<(), MutationError>,
    after: Map<Seq<char>, u64>,
    result: Result<PhotoStateBatchResult, MutationError>,
    k: int,
    other: Seq<char>,
)
    requires
        photo_batch_settled(before, value, change, committed, after, result),
        0 <= k < change.result.applied.len(),
        forall|a: int, b: int|
            0 <= a < b < change.result.applied.len() ==> (
            #[trigger] change.result.applied@[a]).photo_id@ != (
            #[trigger] change.result.applied@[b]).photo_id@,
    ensures
        ({
            let applied = change.result.applied@[k];
            let id = applied.photo_id@;
            &&& committed is Err ==> after == before && result is Err && result->Err_0
                == committed->Err_0
            &&& committed is Ok ==> result == Ok::<PhotoStateBatchResult, MutationError>(
                change.result,
            )
            &&& committed is Ok && applied.prior_value != value && count_of(before, id) < u64::MAX
                ==> count_of(after, id) == count_of(before, id) + 1
            &&& committed is Ok && applied.prior_value == value && count_of(before, id) < u64::MAX
                ==> count_of(after, id) == count_of(before, id)
            &&& (forall|a: int|
                0 <= a < change.result.applied.len() ==> (
                #[trigger] change.result.applied@[a]).photo_id@ != other) ==> count_of(after, other)
                == count_of(before, other)
        }),
{
    let list = crate::photo_change::applied_view(change.result.applied@);
    assert forall|a: int, b: int| 0 <= a < b < list.len() implies (#[trigger] list[a]).0 != (
    #[trigger] list[b]).0 by {
        assert(list[a].0 == change.result.applied@[a].photo_id@);
        assert(list[b].0 == change.result.applied@[b].photo_id@);
    }
    assert(list[k] == (
        change.result.applied@[k].photo_id@,
        change.result.applied@[k].prior_value,
    ));
    lemma_batch_counters(before, list, value, change.result.applied@[k].photo_id@);
    lemma_batch_counters(before, list, value, other);
    if forall|a: int|
        0 <= a < change.result.applied.len() ==> (#[trigger] change.result.applied@[a]).photo_id@
            != other {
        assert forall|a: int| 0 <= a < list.len() implies (#[trigger] list[a]).0 != other by {
            assert(list[a].0 == change.result.applied@[a].photo_id@);
        }
    }
}

proof fn lemma_not_last(ids: Seq<Seq<char>>, id: Seq<char>)
    requires
        ids.len() > 0,
    ensures
        ids.contains(id) <==> ids.drop_last().contains(id) || id == ids.last(),
{
    if ids.drop_last().contains(id) {
        let i = choose|i: int| 0 <= i < ids.len() - 1 && ids.drop_last()[i] == id;
        assert(ids[i] == id);
    }
    if id == ids.last() {
        assert(ids[ids.len() - 1] == id);
    }
    if ids.contains(id) && id != ids.last() {
        let i = choose|i: int| 0 <= i < ids.len() && ids[i] == id;
        assert(ids.drop_last()[i] == id);
    }
}

/// Where every version can move, that of each Photo that was decided moves by one, and no
/// other version moves; it fails where one of them is spent.
pub proof fn law_decided_photos_move_by_one(
    counters: Map<Seq<char>, u64>,
    ids: Seq<Seq<char>>,
    id: Seq<char>,
)
    requires
        ids.no_duplicates(),
    ensures
        ({
            let (after, all) = advance_all(counters, ids);
            &&& all ==> count_of(after, id) == count_of(counters, id) + (if ids.contains(id) {
                1int
            } else {
                0int
            })
            &&& !ids.contains(id) ==> count_of(after, id) == count_of(counters, id)
            &&& all <==> forall|i: int|
                0 <= i < ids.len() ==> count_of(counters, #[trigger] ids[i]) < 0xffff_ffff_ffff_ffff
        }),
    decreases ids.len(),
{
    if ids.len() > 0 {
        let front = ids.drop_last();
        let last = ids.last();
        assert(front.no_duplicates());
        law_decided_photos_move_by_one(counters, front, id);
        law_decided_photos_move_by_one(counters, front, last);
        lemma_not_last(ids, id);
        assert(!front.contains(last)) by {
            if front.contains(last) {
                let i = choose|i: int| 0 <= i < front.len() && front[i] == last;
                assert(ids[i] == ids[ids.len() - 1]);
            }
        }
        let (before, first) = advance_all(counters, front);
        if first && count_of(before, last) < u64::MAX {
            assert forall|i: int| 0 <= i < ids.len() implies count_of(counters, #[trigger] ids[i])
                < 0xffff_ffff_ffff_ffff by {
                if i < front.len() {
                    assert(front[i] == ids[i]);
                }
            }
        } else if !first {
            let i = choose|i: int|
                0 <= i < front.len() && !(count_of(counters, #[trigger] front[i])
                    < 0xffff_ffff_ffff_ffff);
            assert(ids[i] == front[i]);
        } else {
            assert(ids[ids.len() - 1] == last);
        }
    }
}

} // verus!
