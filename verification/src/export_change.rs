//! The life of an Export: accepted once per request, rendered by attempts,
//! settled exactly once, and retried only from a settled failure.
use crate::binary::{finite, is_nan};
use crate::codec::OriginalKind;
use crate::edit_recipe::{clone_recipe_read, request_id_valid, EditRecipeRead};
use crate::error::PersistenceError;
use crate::export::{
    clone_export_row, export_record_from_row, no_artifact, record_of, row_whole, terminal,
    validate_export_request_id, ExportAttempt, ExportRecord, ExportRow, ExportState,
    MAXIMUM_EXPORT_OUTCOME_BYTES, MAXIMUM_EXPORT_REQUEST_ID_BYTES,
};
use crate::export_store::{reservable, reserved, ExportHold, ExportLease};
use crate::json::{digest_text, json_text, text_digest, write_json_text};
use crate::limits::{EXPORT_RETENTION_SECONDS, MAXIMUM_EXPORT_BYTES};
use crate::numeral::{decimal, decimal_text};
use crate::text::{length_before_nul, opt_text, same_text, stored_length};
use vstd::prelude::*;
use vstd::string::*;
use vstd::utf8::encode_utf8;

verus! {

/// What is kept of a request, to answer it the same way again.
#[derive(Clone, Debug, PartialEq, Eq)]
pub struct ExportReceipt {
    pub payload_digest: String,
    pub export_id: String,
    pub created_at: u64,
    pub settled_at: Option<u64>,
}

/// A request for an Export. `payload_digest` is the digest of what it asks for.
#[derive(Clone, Debug, PartialEq, Eq)]
pub struct ExportSubmission {
    pub request_id: String,
    pub photo_id: String,
    pub source_profile_id: String,
    pub policy_id: String,
    pub bundle_id: String,
    pub expected_recipe_revision: String,
    pub expected_source_revision: String,
    pub retained_output_bytes_max: u64,
    pub payload_digest: String,
}

/// The digest of what a request for an Export asks for.
pub fn export_payload_digest(submission: &ExportSubmission) -> (digest: String)
    ensures
        digest == submission.payload_digest,
{
    submission.payload_digest.clone()
}

/// What a request for an Export is answered.
#[derive(Clone, Debug, PartialEq, Eq)]
pub enum ExportSubmitOutcome {
    Created(ExportRecord),
    Existing(ExportRecord),
    Expired,
    RequestConflict,
    UnknownPhoto,
    UnsupportedPhoto,
    Unavailable,
    MissingRecipe,
    SourceChanged(EditRecipeRead),
    RequiresRebind,
    RecipeConflict(EditRecipeRead),
    InvalidSettings,
    RetainedOutputFull,
}

/// What is read for a request for an Export: the receipt of an earlier request
/// with its identity and the Export that it names, the recipe of the Photo, the
/// kind of its source with whether it can be read, and the room that all Exports
/// and leases take.
/// `receipt_digest` is the digest of the recipe in the named row. `capture` is the
/// digest of the recipe as the request would export it, none if its range does
/// not admit it, and `recapture` the same read back from the row.
#[derive(Clone, Debug, PartialEq, Eq)]
pub struct SubmissionFacts {
    pub receipt: Option<ExportReceipt>,
    pub receipt_row: Option<ExportRow>,
    pub receipt_digest: Option<String>,
    pub current: Option<EditRecipeRead>,
    pub source: Option<(OriginalKind, bool)>,
    pub capture: Option<String>,
    pub recapture: Option<String>,
    pub holds: Vec<ExportHold>,
    pub leases: Vec<ExportLease>,
}

/// What a request for an Export is answered, and what is stored for it.
#[derive(Clone, Debug, PartialEq, Eq)]
pub struct ExportSubmitChange {
    pub outcome: ExportSubmitOutcome,
    pub row: Option<ExportRow>,
    pub receipt: Option<ExportReceipt>,
}

/// Whether an Export has an identity.
pub open spec fn export_known(holds: Seq<ExportHold>, id: Seq<char>) -> bool {
    exists|i: int| 0 <= i < holds.len() && (#[trigger] holds[i]).id@ == id
}

fn is_export_known(holds: &Vec<ExportHold>, id: &String) -> (answer: bool)
    ensures
        answer == export_known(holds@, id@),
{
    let mut i: usize = 0;
    while i < holds.len()
        invariant
            i <= holds.len(),
            forall|j: int| 0 <= j < i ==> (#[trigger] holds@[j]).id@ != id@,
        decreases holds.len() - i,
    {
        if same_text(&holds[i].id, id) {
            assert(holds@[i as int].id@ == id@);
            return true;
        }
        i = i + 1;
    }
    false
}

/// Whether a row is the one of a new Export: queued, with what it was accepted
/// with and nothing else yet.
pub open spec fn new_export(
    row: ExportRow,
    submission: ExportSubmission,
    current: EditRecipeRead,
    capture: String,
    now: u64,
    token: Seq<char>,
) -> bool {
    let recipe = current.recipe->0;
    &&& row.id@ == "exp-"@ + token
    &&& row == (ExportRow {
        id: row.id,
        photo_id: submission.photo_id,
        state: ExportState::Queued,
        outcome: None,
        recipe_revision: recipe.revision,
        exposure_ev: recipe.settings.exposure_ev,
        source_revision: submission.expected_source_revision,
        source_profile_id: submission.source_profile_id,
        source_size: None,
        source_sha256: None,
        recipe_digest: capture,
        policy_id: submission.policy_id,
        bundle_id: submission.bundle_id,
        attempt_incarnation: None,
        attempt_sequence: None,
        artifact_size: None,
        artifact_sha256: None,
        artifact_expires_at: None,
        artifact_width: None,
        artifact_height: None,
        artifact_profile_identity: None,
        created_at: now,
        settled_at: None,
        retain_until: None,
    })
}

/// Whether the database takes a new Export.
pub open spec fn new_storable(
    submission: ExportSubmission,
    current: EditRecipeRead,
    capture: Seq<char>,
    now: u64,
    holds: Seq<ExportHold>,
    token: Seq<char>,
) -> bool {
    let recipe = current.recipe->0;
    &&& stored_length(recipe.revision@) > 0
    &&& !is_nan(recipe.settings.exposure_ev)
    &&& stored_length(submission.expected_source_revision@) > 0
    &&& 1 <= stored_length(submission.source_profile_id@) <= 64
    &&& stored_length(capture) == 64
    &&& stored_length(submission.policy_id@) == 64
    &&& stored_length(submission.bundle_id@) == 64
    &&& now <= i64::MAX
    &&& !export_known(holds, "exp-"@ + token)
}

/// Whether a receipt is that of a request at a time.
pub open spec fn receipt_of(
    receipt: ExportReceipt,
    digest: Seq<char>,
    export_id: Seq<char>,
    now: u64,
) -> bool {
    receipt.payload_digest@ == digest && receipt.export_id@ == export_id && receipt.created_at
        == now && receipt.settled_at is None
}

/// What a request for an Export is answered without one being made: none if one
/// is to be made.
pub open spec fn submit_refusal(facts: SubmissionFacts, submission: ExportSubmission) -> Option<
    ExportSubmitOutcome,
> {
    let source = facts.source->0;
    let current = facts.current->0;
    let recipe = current.recipe->0;
    if facts.current is None || facts.source is None {
        Some(ExportSubmitOutcome::UnknownPhoto)
    } else if source.0 != OriginalKind::Raw {
        Some(ExportSubmitOutcome::UnsupportedPhoto)
    } else if !source.1 || !current.source_available {
        Some(ExportSubmitOutcome::Unavailable)
    } else if current.recipe is None {
        Some(ExportSubmitOutcome::MissingRecipe)
    } else if current.current_source_revision@ != submission.expected_source_revision@ {
        Some(ExportSubmitOutcome::SourceChanged(current))
    } else if recipe.source_revision@ != submission.expected_source_revision@ {
        Some(ExportSubmitOutcome::RequiresRebind)
    } else if recipe.revision@ != submission.expected_recipe_revision@ {
        Some(ExportSubmitOutcome::RecipeConflict(current))
    } else if facts.capture is None {
        Some(ExportSubmitOutcome::InvalidSettings)
    } else {
        None
    }
}

/// The answer to a request whose identity has a receipt already.
pub open spec fn submission_replayed(
    receipt: ExportReceipt,
    row: Option<ExportRow>,
    digest: Option<Seq<char>>,
    payload_digest: Seq<char>,
) -> Result<ExportSubmitOutcome, PersistenceError> {
    if receipt.payload_digest@ != payload_digest {
        Ok(ExportSubmitOutcome::RequestConflict)
    } else {
        match row {
            None => Ok(ExportSubmitOutcome::Expired),
            Some(row) => if row_whole(row, digest) {
                Ok(ExportSubmitOutcome::Existing(record_of(row)))
            } else {
                Err(PersistenceError::Storage)
            },
        }
    }
}

fn submit_answer(outcome: ExportSubmitOutcome) -> (change: ExportSubmitChange)
    ensures
        change == (ExportSubmitChange { outcome, row: None, receipt: None }),
{
    ExportSubmitChange { outcome, row: None, receipt: None }
}

fn refuse_submission(facts: &SubmissionFacts, submission: &ExportSubmission) -> (refusal: Option<
    ExportSubmitOutcome,
>)
    ensures
        refusal == submit_refusal(*facts, *submission),
{
    let (current, kind, available): (&EditRecipeRead, OriginalKind, bool) = match (
        &facts.current,
        facts.source,
    ) {
        (Some(current), Some((kind, available))) => (current, kind, available),
        _ => {
            return Some(ExportSubmitOutcome::UnknownPhoto);
        },
    };
    if kind != OriginalKind::Raw {
        return Some(ExportSubmitOutcome::UnsupportedPhoto);
    }
    if !available || !current.source_available {
        return Some(ExportSubmitOutcome::Unavailable);
    }
    match &current.recipe {
        None => Some(ExportSubmitOutcome::MissingRecipe),
        Some(recipe) => {
            if !same_text(
                &current.current_source_revision,
                &submission.expected_source_revision,
            ) {
                Some(ExportSubmitOutcome::SourceChanged(clone_recipe_read(current)))
            } else if !same_text(&recipe.source_revision, &submission.expected_source_revision) {
                Some(ExportSubmitOutcome::RequiresRebind)
            } else if !same_text(&recipe.revision, &submission.expected_recipe_revision) {
                Some(ExportSubmitOutcome::RecipeConflict(clone_recipe_read(current)))
            } else if facts.capture.is_none() {
                Some(ExportSubmitOutcome::InvalidSettings)
            } else {
                None
            }
        },
    }
}

/// What a request for an Export leads to where neither a receipt nor a refusal
/// answers it: no room, a failure of storage, or a new Export with its receipt.
pub open spec fn created(
    change: Result<ExportSubmitChange, PersistenceError>,
    facts: SubmissionFacts,
    submission: ExportSubmission,
    now: u64,
    token: Seq<char>,
) -> bool {
    let held = reserved(facts.holds@, facts.leases@, now);
    let current = facts.current->0;
    let capture = facts.capture->0;
    if held > i64::MAX {
        change == Err::<ExportSubmitChange, PersistenceError>(PersistenceError::Storage)
    } else if held + MAXIMUM_EXPORT_BYTES > submission.retained_output_bytes_max {
        change == Ok::<ExportSubmitChange, PersistenceError>(
            ExportSubmitChange {
                outcome: ExportSubmitOutcome::RetainedOutputFull,
                row: None,
                receipt: None,
            },
        )
    } else if !new_storable(submission, current, capture@, now, facts.holds@, token) || opt_text(
        facts.recapture,
    ) != Some(capture@) {
        change == Err::<ExportSubmitChange, PersistenceError>(PersistenceError::Storage)
    } else {
        &&& change is Ok
        &&& change->Ok_0.row is Some
        &&& new_export(change->Ok_0.row->0, submission, current, capture, now, token)
        &&& change->Ok_0.outcome == ExportSubmitOutcome::Created(record_of(change->Ok_0.row->0))
        &&& change->Ok_0.receipt is Some
        &&& receipt_of(
            change->Ok_0.receipt->0,
            submission.payload_digest@,
            "exp-"@ + token,
            now,
        )
    }
}

/// Whether a request for an Export is valid.
pub open spec fn submission_valid(submission: ExportSubmission) -> bool {
    request_id_valid(submission.request_id@, MAXIMUM_EXPORT_REQUEST_ID_BYTES)
        && submission.source_profile_id@.len() > 0
}

/// What a request for an Export is answered before anything is read: nothing where it
/// is valid.
pub fn refuse_request(submission: &ExportSubmission) -> (refusal: Option<ExportSubmitOutcome>)
    ensures
        refusal == (if submission_valid(*submission) {
            None
        } else {
            Some(ExportSubmitOutcome::InvalidSettings)
        }),
{
    if !validate_export_request_id(&submission.request_id)
        || submission.source_profile_id.as_str().unicode_len() == 0 {
        Some(ExportSubmitOutcome::InvalidSettings)
    } else {
        None
    }
}

/// Whether a change answers a request for an Export.
pub open spec fn submitted(
    facts: SubmissionFacts,
    submission: ExportSubmission,
    now: u64,
    token: Seq<char>,
    change: Result<ExportSubmitChange, PersistenceError>,
) -> bool {
    if !submission_valid(submission) {
        change == Ok::<ExportSubmitChange, PersistenceError>(
            ExportSubmitChange {
                outcome: ExportSubmitOutcome::InvalidSettings,
                row: None,
                receipt: None,
            },
        )
    } else {
        match facts.receipt {
            Some(receipt) => change == (match submission_replayed(
                receipt,
                facts.receipt_row,
                opt_text(facts.receipt_digest),
                submission.payload_digest@,
            ) {
                Ok(outcome) => Ok::<ExportSubmitChange, PersistenceError>(
                    ExportSubmitChange { outcome, row: None, receipt: None },
                ),
                Err(error) => Err::<ExportSubmitChange, PersistenceError>(error),
            }),
            None => match submit_refusal(facts, submission) {
                Some(outcome) => change == Ok::<ExportSubmitChange, PersistenceError>(
                    ExportSubmitChange { outcome, row: None, receipt: None },
                ),
                None => created(change, facts, submission, now, token),
            },
        }
    }
}

/// Decides a request for an Export. `token` is a random identity.
pub fn submit_export(
    facts: &SubmissionFacts,
    submission: &ExportSubmission,
    now: u64,
    token: &String,
) -> (change: Result<ExportSubmitChange, PersistenceError>)
    ensures
        submitted(*facts, *submission, now, token@, change),
{
    match refuse_request(submission) {
        Some(refusal) => {
            return Ok(submit_answer(refusal));
        },
        None => {},
    }
    match &facts.receipt {
        Some(receipt) => {
            if !same_text(&receipt.payload_digest, &submission.payload_digest) {
                return Ok(submit_answer(ExportSubmitOutcome::RequestConflict));
            }
            return match &facts.receipt_row {
                None => Ok(submit_answer(ExportSubmitOutcome::Expired)),
                Some(row) => match export_record_from_row(row, &facts.receipt_digest) {
                    Ok(record) => Ok(submit_answer(ExportSubmitOutcome::Existing(record))),
                    Err(error) => Err(error),
                },
            };
        },
        None => {},
    }
    match refuse_submission(facts, submission) {
        Some(refusal) => {
            return Ok(submit_answer(refusal));
        },
        None => {},
    }
    match reservable(&facts.holds, &facts.leases, now, submission.retained_output_bytes_max) {
        Ok(fits) => {
            if !fits {
                return Ok(submit_answer(ExportSubmitOutcome::RetainedOutputFull));
            }
        },
        Err(error) => {
            return Err(error);
        },
    }
    let current: &EditRecipeRead = match &facts.current {
        Some(current) => current,
        None => {
            return Err(PersistenceError::Storage);
        },
    };
    match (&current.recipe, &facts.capture) {
        (Some(recipe), Some(capture)) => {
            let mut id: String = "exp-".to_owned();
            id.append(token.as_str());
            let profile_length: usize = length_before_nul(&submission.source_profile_id);
            let nan: bool = !recipe.settings.exposure_ev.is_nonnegative()
                && !recipe.settings.exposure_ev.is_negative();
            if length_before_nul(&recipe.revision) == 0 || nan || length_before_nul(
                &submission.expected_source_revision,
            ) == 0 || profile_length < 1 || profile_length > 64 || length_before_nul(capture) != 64
                || length_before_nul(&submission.policy_id) != 64 || length_before_nul(
                &submission.bundle_id,
            ) != 64 || now > i64::MAX as u64 || is_export_known(&facts.holds, &id) {
                return Err(PersistenceError::Storage);
            }
            let row: ExportRow = ExportRow {
                id: id.clone(),
                photo_id: submission.photo_id.clone(),
                state: ExportState::Queued,
                outcome: None,
                recipe_revision: recipe.revision.clone(),
                exposure_ev: recipe.settings.exposure_ev,
                source_revision: submission.expected_source_revision.clone(),
                source_profile_id: submission.source_profile_id.clone(),
                source_size: None,
                source_sha256: None,
                recipe_digest: capture.clone(),
                policy_id: submission.policy_id.clone(),
                bundle_id: submission.bundle_id.clone(),
                attempt_incarnation: None,
                attempt_sequence: None,
                artifact_size: None,
                artifact_sha256: None,
                artifact_expires_at: None,
                artifact_width: None,
                artifact_height: None,
                artifact_profile_identity: None,
                created_at: now,
                settled_at: None,
                retain_until: None,
            };
            match export_record_from_row(&row, &facts.recapture) {
                Ok(record) => Ok(
                    ExportSubmitChange {
                        outcome: ExportSubmitOutcome::Created(record),
                        row: Some(row),
                        receipt: Some(
                            ExportReceipt {
                                payload_digest: submission.payload_digest.clone(),
                                export_id: id,
                                created_at: now,
                                settled_at: None,
                            },
                        ),
                    },
                ),
                Err(error) => Err(error),
            }
        },
        _ => Err(PersistenceError::Storage),
    }
}

/// What the identity of a request for an Export leads to already.
#[derive(Clone, Debug, PartialEq, Eq)]
pub enum ExportSubmissionResolution {
    Conflict,
    Existing(ExportRecord),
    Expired,
}

/// What the identity of a request resolves to without any change: nothing exactly
/// when it was never recorded. A recorded one conflicts, is replayed or has expired;
/// one whose Export is not whole is a failure of storage.
pub fn resolve_export_submission(
    receipt: &Option<ExportReceipt>,
    row: &Option<ExportRow>,
    digest: &Option<String>,
    payload_digest: &String,
) -> (resolution: Result<Option<ExportSubmissionResolution>, PersistenceError>)
    ensures
        resolution == (match *receipt {
            None => Ok::<Option<ExportSubmissionResolution>, PersistenceError>(None),
            Some(receipt) => match submission_replayed(
                receipt,
                *row,
                opt_text(*digest),
                payload_digest@,
            ) {
                Ok(ExportSubmitOutcome::RequestConflict) => Ok(
                    Some(ExportSubmissionResolution::Conflict),
                ),
                Ok(ExportSubmitOutcome::Existing(record)) => Ok(
                    Some(ExportSubmissionResolution::Existing(record)),
                ),
                Ok(_) => Ok(Some(ExportSubmissionResolution::Expired)),
                Err(error) => Err(error),
            },
        }),
        *receipt is None <==> resolution == Ok::<
            Option<ExportSubmissionResolution>,
            PersistenceError,
        >(None),
{
    let receipt: &ExportReceipt = match receipt {
        Some(receipt) => receipt,
        None => {
            return Ok(None);
        },
    };
    if !same_text(&receipt.payload_digest, payload_digest) {
        return Ok(Some(ExportSubmissionResolution::Conflict));
    }
    match row {
        None => Ok(Some(ExportSubmissionResolution::Expired)),
        Some(row) => match export_record_from_row(row, digest) {
            Ok(record) => Ok(Some(ExportSubmissionResolution::Existing(record))),
            Err(error) => Err(error),
        },
    }
}

/// A repeated request for an Export never makes a second one: it is answered with
/// the Export that it made, or with its expiry once that is gone.
pub proof fn law_repeated_submissions_make_nothing(
    receipt: ExportReceipt,
    row: Option<ExportRow>,
    digest: Option<Seq<char>>,
    payload_digest: Seq<char>,
)
    ensures
        submission_replayed(receipt, row, digest, payload_digest) matches Ok(outcome) ==> !(outcome
            is Created),
        receipt.payload_digest@ == payload_digest && row is None ==> submission_replayed(
            receipt,
            row,
            digest,
            payload_digest,
        ) == Ok::<ExportSubmitOutcome, PersistenceError>(ExportSubmitOutcome::Expired),
        receipt.payload_digest@ != payload_digest ==> submission_replayed(
            receipt,
            row,
            digest,
            payload_digest,
        ) == Ok::<ExportSubmitOutcome, PersistenceError>(ExportSubmitOutcome::RequestConflict),
{
}

/// What is stored of an Export after a step of its life, if anything changes, and
/// its record, none if there is no such Export.
#[derive(Clone, Debug, PartialEq, Eq)]
pub struct ExportUpdate {
    pub row: Option<ExportRow>,
    pub record: Option<ExportRecord>,
}

/// A step in the life of an Export: an unfinished one gets the given row, a
/// settled one stays as it is. `after` is none where the database does not take
/// the row.
pub open spec fn stepped(
    current: Option<ExportRow>,
    digest: Option<Seq<char>>,
    after: Option<ExportRow>,
) -> Result<ExportUpdate, PersistenceError> {
    match current {
        None => Ok(ExportUpdate { row: None, record: None }),
        Some(row) => if !row_whole(row, digest) {
            Err(PersistenceError::Storage)
        } else if terminal(row.state) {
            Ok(ExportUpdate { row: None, record: Some(record_of(row)) })
        } else {
            match after {
                None => Err(PersistenceError::Storage),
                Some(next) => if row_whole(next, digest) {
                    Ok(ExportUpdate { row: Some(next), record: Some(record_of(next)) })
                } else {
                    Err(PersistenceError::Storage)
                },
            }
        },
    }
}

fn step(current: &Option<ExportRow>, digest: &Option<String>, after: Option<ExportRow>) -> (update:
    Result<ExportUpdate, PersistenceError>)
    ensures
        update == stepped(*current, opt_text(*digest), after),
{
    let row: &ExportRow = match current {
        Some(row) => row,
        None => {
            return Ok(ExportUpdate { row: None, record: None });
        },
    };
    let record: ExportRecord = match export_record_from_row(row, digest) {
        Ok(record) => record,
        Err(error) => {
            return Err(error);
        },
    };
    if row.state.is_terminal() {
        return Ok(ExportUpdate { row: None, record: Some(record) });
    }
    match after {
        None => Err(PersistenceError::Storage),
        Some(next) => match export_record_from_row(&next, digest) {
            Ok(record) => Ok(ExportUpdate { row: Some(next), record: Some(record) }),
            Err(error) => Err(error),
        },
    }
}

/// Whatever step meets a settled Export leaves it as it is and tells the record
/// that it was settled with: a racing cancellation and completion settle once.
pub proof fn law_exports_settle_once(
    row: ExportRow,
    digest: Option<Seq<char>>,
    after: Option<ExportRow>,
)
    requires
        terminal(row.state),
        row_whole(row, digest),
    ensures
        stepped(Some(row), digest, after) == Ok::<ExportUpdate, PersistenceError>(
            ExportUpdate { row: None, record: Some(record_of(row)) },
        ),
{
}

/// The verified source bytes of an Export, once staged.
pub open spec fn with_source(row: ExportRow, size: u64, sha256: String) -> Option<ExportRow> {
    if stored_length(sha256@) == 64 {
        Some(ExportRow { source_size: Some(size), source_sha256: Some(sha256), ..row })
    } else {
        None
    }
}

/// What recording the evidence of an Export's source changes.
pub open spec fn source_recorded(
    current: Option<ExportRow>,
    digest: Option<Seq<char>>,
    size: u64,
    sha256: String,
) -> Result<ExportUpdate, PersistenceError> {
    if size == 0 || size > MAXIMUM_EXPORT_BYTES || encode_utf8(sha256@).len() != 64 {
        Err::<ExportUpdate, PersistenceError>(PersistenceError::Storage)
    } else {
        stepped(
            current,
            digest,
            match current {
                Some(row) => with_source(row, size, sha256),
                None => None,
            },
        )
    }
}

/// Records the verified source bytes of an unfinished Export.
pub fn record_export_source(
    current: &Option<ExportRow>,
    digest: &Option<String>,
    size: u64,
    sha256: &String,
) -> (update: Result<ExportUpdate, PersistenceError>)
    ensures
        update == source_recorded(*current, opt_text(*digest), size, *sha256),
{
    if size == 0 || size > MAXIMUM_EXPORT_BYTES || sha256.as_str().as_bytes().len() != 64 {
        return Err(PersistenceError::Storage);
    }
    let after: Option<ExportRow> = match current {
        Some(row) => if length_before_nul(sha256) == 64 {
            let mut next: ExportRow = clone_export_row(row);
            next.source_size = Some(size);
            next.source_sha256 = Some(sha256.clone());
            Some(next)
        } else {
            None
        },
        None => None,
    };
    step(current, digest, after)
}

/// How an Export was settled.
#[derive(Clone, Debug, PartialEq, Eq)]
pub enum ExportSettlement {
    Succeeded {
        artifact_size: u64,
        artifact_sha256: String,
        published_at: u64,
        artifact_width: u32,
        artifact_height: u32,
        artifact_profile_identity: String,
    },
    Failed { outcome: String, settled_at: u64 },
}

/// When something that is settled at a time is no longer retained.
pub open spec fn retained_until(settled_at: u64) -> u64 {
    if settled_at + EXPORT_RETENTION_SECONDS > u64::MAX {
        u64::MAX
    } else {
        (settled_at + EXPORT_RETENTION_SECONDS) as u64
    }
}

fn retain_until(settled_at: u64) -> (until: u64)
    ensures
        until == retained_until(settled_at),
{
    if settled_at > u64::MAX - EXPORT_RETENTION_SECONDS {
        u64::MAX
    } else {
        settled_at + EXPORT_RETENTION_SECONDS
    }
}

/// An Export after it was settled, none if the database does not take it.
pub open spec fn settled(row: ExportRow, settlement: ExportSettlement) -> Option<ExportRow> {
    match settlement {
        ExportSettlement::Succeeded {
            artifact_size,
            artifact_sha256,
            published_at,
            artifact_width,
            artifact_height,
            artifact_profile_identity,
        } => {
            let expiry = retained_until(published_at);
            if 0 < artifact_size <= i64::MAX && stored_length(artifact_sha256@) == 64
                && artifact_width > 0 && artifact_height > 0 && stored_length(
                artifact_profile_identity@,
            ) == 64 && expiry <= i64::MAX {
                Some(
                    ExportRow {
                        state: ExportState::Succeeded,
                        outcome: None,
                        artifact_size: Some(artifact_size),
                        artifact_sha256: Some(artifact_sha256),
                        artifact_expires_at: Some(expiry),
                        artifact_width: Some(artifact_width),
                        artifact_height: Some(artifact_height),
                        artifact_profile_identity: Some(artifact_profile_identity),
                        settled_at: Some(published_at),
                        retain_until: Some(expiry),
                        ..row
                    },
                )
            } else {
                None
            }
        },
        ExportSettlement::Failed { outcome, settled_at } => {
            let until = retained_until(settled_at);
            if stored_length(outcome@) >= 1 && until <= i64::MAX {
                Some(
                    ExportRow {
                        state: ExportState::Failed,
                        outcome: Some(outcome),
                        artifact_size: None,
                        artifact_sha256: None,
                        artifact_expires_at: None,
                        settled_at: Some(settled_at),
                        retain_until: Some(until),
                        ..row
                    },
                )
            } else {
                None
            }
        },
    }
}

/// Whether the text that tells why an Export failed is bounded.
pub open spec fn settlement_bounded(settlement: ExportSettlement) -> bool {
    match settlement {
        ExportSettlement::Succeeded { .. } => true,
        ExportSettlement::Failed { outcome, .. } => outcome@.len() > 0 && encode_utf8(
            outcome@,
        ).len() <= MAXIMUM_EXPORT_OUTCOME_BYTES,
    }
}

fn settle_row(row: &ExportRow, settlement: &ExportSettlement) -> (after: Option<ExportRow>)
    ensures
        after == settled(*row, *settlement),
{
    match settlement {
        ExportSettlement::Succeeded {
            artifact_size,
            artifact_sha256,
            published_at,
            artifact_width,
            artifact_height,
            artifact_profile_identity,
        } => {
            let expiry: u64 = retain_until(*published_at);
            if *artifact_size == 0 || *artifact_size > i64::MAX as u64 || length_before_nul(
                artifact_sha256,
            ) != 64 || *artifact_width == 0 || *artifact_height == 0 || length_before_nul(
                artifact_profile_identity,
            ) != 64 || expiry > i64::MAX as u64 {
                return None;
            }
            let mut next: ExportRow = clone_export_row(row);
            next.state = ExportState::Succeeded;
            next.outcome = None;
            next.artifact_size = Some(*artifact_size);
            next.artifact_sha256 = Some(artifact_sha256.clone());
            next.artifact_expires_at = Some(expiry);
            next.artifact_width = Some(*artifact_width);
            next.artifact_height = Some(*artifact_height);
            next.artifact_profile_identity = Some(artifact_profile_identity.clone());
            next.settled_at = Some(*published_at);
            next.retain_until = Some(expiry);
            Some(next)
        },
        ExportSettlement::Failed { outcome, settled_at } => {
            let until: u64 = retain_until(*settled_at);
            if length_before_nul(outcome) < 1 || until > i64::MAX as u64 {
                return None;
            }
            let mut next: ExportRow = clone_export_row(row);
            next.state = ExportState::Failed;
            next.outcome = Some(outcome.clone());
            next.artifact_size = None;
            next.artifact_sha256 = None;
            next.artifact_expires_at = None;
            next.settled_at = Some(*settled_at);
            next.retain_until = Some(until);
            Some(next)
        },
    }
}

/// What settling an Export changes.
pub open spec fn export_settled(
    current: Option<ExportRow>,
    digest: Option<Seq<char>>,
    settlement: ExportSettlement,
) -> Result<ExportUpdate, PersistenceError> {
    if !settlement_bounded(settlement) {
        Err::<ExportUpdate, PersistenceError>(PersistenceError::Storage)
    } else {
        stepped(
            current,
            digest,
            match current {
                Some(row) => settled(row, settlement),
                None => None,
            },
        )
    }
}

/// Settles an unfinished Export.
pub fn settle_export(
    current: &Option<ExportRow>,
    digest: &Option<String>,
    settlement: &ExportSettlement,
) -> (update: Result<ExportUpdate, PersistenceError>)
    ensures
        update == export_settled(*current, opt_text(*digest), *settlement),
{
    let bounded: bool = match settlement {
        ExportSettlement::Succeeded { .. } => true,
        ExportSettlement::Failed { outcome, .. } => outcome.as_str().unicode_len() > 0
            && outcome.as_str().as_bytes().len() <= MAXIMUM_EXPORT_OUTCOME_BYTES,
    };
    if !bounded {
        return Err(PersistenceError::Storage);
    }
    let after: Option<ExportRow> = match current {
        Some(row) => settle_row(row, settlement),
        None => None,
    };
    step(current, digest, after)
}

/// An Export after it was cancelled, none if the database does not take it.
pub open spec fn cancelled(row: ExportRow, now: u64) -> Option<ExportRow> {
    if retained_until(now) <= i64::MAX {
        Some(
            ExportRow {
                state: ExportState::Cancelled,
                artifact_size: None,
                artifact_sha256: None,
                artifact_expires_at: None,
                settled_at: Some(now),
                retain_until: Some(retained_until(now)),
                ..row
            },
        )
    } else {
        None
    }
}

/// What cancelling an Export changes.
pub open spec fn export_cancelled(
    current: Option<ExportRow>,
    digest: Option<Seq<char>>,
    now: u64,
) -> Result<ExportUpdate, PersistenceError> {
    stepped(
        current,
        digest,
        match current {
            Some(row) => cancelled(row, now),
            None => None,
        },
    )
}

/// Cancels an unfinished Export.
pub fn cancel_export(current: &Option<ExportRow>, digest: &Option<String>, now: u64) -> (update:
    Result<ExportUpdate, PersistenceError>)
    ensures
        update == export_cancelled(*current, opt_text(*digest), now),
{
    let until: u64 = retain_until(now);
    let after: Option<ExportRow> = match current {
        Some(row) => if until <= i64::MAX as u64 {
            let mut next: ExportRow = clone_export_row(row);
            next.state = ExportState::Cancelled;
            next.artifact_size = None;
            next.artifact_sha256 = None;
            next.artifact_expires_at = None;
            next.settled_at = Some(now);
            next.retain_until = Some(until);
            Some(next)
        } else {
            None
        },
        None => None,
    };
    step(current, digest, after)
}

/// Whether a character is a lower-case hexadecimal digit.
pub open spec fn lower_hex(c: char) -> bool {
    ('0' <= c <= '9') || ('a' <= c <= 'f')
}

/// Whether an attempt is one that a launcher names: a sequence number above zero
/// and 32 lower-case hexadecimal digits.
pub open spec fn attempt_valid(attempt: ExportAttempt) -> bool {
    &&& attempt.sequence > 0
    &&& attempt.incarnation@.len() == 32
    &&& forall|i: int|
        0 <= i < attempt.incarnation@.len() ==> lower_hex(#[trigger] attempt.incarnation@[i])
}

/// Whether an attempt is one that a launcher names.
pub fn valid_attempt(attempt: &ExportAttempt) -> (valid: bool)
    ensures
        valid == attempt_valid(*attempt),
{
    if attempt.sequence == 0 || attempt.incarnation.as_str().unicode_len() != 32 {
        return false;
    }
    let mut i: usize = 0;
    while i < 32
        invariant
            i <= 32,
            attempt.incarnation@.len() == 32,
            forall|j: int| 0 <= j < i ==> lower_hex(#[trigger] attempt.incarnation@[j]),
        decreases 32 - i,
    {
        let c: char = attempt.incarnation.as_str().get_char(i);
        if !(('0' <= c && c <= '9') || ('a' <= c && c <= 'f')) {
            assert(!lower_hex(attempt.incarnation@[i as int]));
            return false;
        }
        i = i + 1;
    }
    true
}

/// An Export that an attempt renders, none if the database does not take it.
pub open spec fn running(row: ExportRow, attempt: ExportAttempt) -> Option<ExportRow> {
    if attempt.sequence <= i64::MAX {
        Some(
            ExportRow {
                state: ExportState::Running,
                attempt_incarnation: Some(attempt.incarnation),
                attempt_sequence: Some(attempt.sequence),
                ..row
            },
        )
    } else {
        None
    }
}

/// What beginning an attempt at an Export changes.
pub open spec fn attempt_begun(
    current: Option<ExportRow>,
    digest: Option<Seq<char>>,
    attempt: ExportAttempt,
) -> Result<ExportUpdate, PersistenceError> {
    if !attempt_valid(attempt) {
        Err::<ExportUpdate, PersistenceError>(PersistenceError::Storage)
    } else {
        stepped(
            current,
            digest,
            match current {
                Some(row) => running(row, attempt),
                None => None,
            },
        )
    }
}

/// Begins an attempt to render an unfinished Export.
pub fn begin_export_attempt(
    current: &Option<ExportRow>,
    digest: &Option<String>,
    attempt: &ExportAttempt,
) -> (update: Result<ExportUpdate, PersistenceError>)
    ensures
        update == attempt_begun(*current, opt_text(*digest), *attempt),
{
    if !valid_attempt(attempt) {
        return Err(PersistenceError::Storage);
    }
    let after: Option<ExportRow> = match current {
        Some(row) => if attempt.sequence <= i64::MAX as u64 {
            let mut next: ExportRow = clone_export_row(row);
            next.state = ExportState::Running;
            next.attempt_incarnation = Some(attempt.incarnation.clone());
            next.attempt_sequence = Some(attempt.sequence);
            Some(next)
        } else {
            None
        },
        None => None,
    };
    step(current, digest, after)
}

/// No step but a retry changes what an Export was accepted with.
pub proof fn law_steps_keep_what_was_accepted(
    row: ExportRow,
    settlement: ExportSettlement,
    attempt: ExportAttempt,
    now: u64,
)
    ensures
        settled(row, settlement) is Some ==> record_of(settled(row, settlement)->0).snapshot
            == record_of(row).snapshot && settled(row, settlement)->0.id == row.id && terminal(
            settled(row, settlement)->0.state,
        ),
        cancelled(row, now) is Some ==> record_of(cancelled(row, now)->0).snapshot == record_of(
            row,
        ).snapshot && cancelled(row, now)->0.id == row.id && terminal(cancelled(row, now)->0.state),
        running(row, attempt) is Some ==> record_of(running(row, attempt)->0).snapshot == record_of(
            row,
        ).snapshot && running(row, attempt)->0.id == row.id,
{
}

/// What a request to retry an Export is answered.
#[derive(Clone, Debug, PartialEq, Eq)]
pub enum ExportRetryOutcome {
    Retried(ExportRecord),
    Replayed(ExportRecord),
    RequestConflict,
    NotRetriable,
    Expired,
    Unknown,
    OutputUnavailable,
    ResourceUnavailable,
    RetainedOutputFull,
}

/// What is read for a request to retry an Export: its row with the digest of its
/// recipe, whether a mark says that it is gone, the receipt of an earlier request
/// with the same identity, the recipe of the Photo, and the room that all Exports
/// and leases take.
#[derive(Clone, Debug, PartialEq, Eq)]
pub struct RetryFacts {
    pub current: Option<ExportRow>,
    pub digest: Option<String>,
    pub tombstone: bool,
    pub receipt: Option<ExportReceipt>,
    pub recipe: Option<EditRecipeRead>,
    pub holds: Vec<ExportHold>,
    pub leases: Vec<ExportLease>,
}

/// What a request to retry an Export is answered, and what is stored for it.
#[derive(Clone, Debug, PartialEq, Eq)]
pub struct ExportRetryChange {
    pub outcome: ExportRetryOutcome,
    pub row: Option<ExportRow>,
    pub receipt: Option<ExportReceipt>,
}

/// The digest that stands for the retry of an Export.
pub open spec fn retry_digest(export_id: Seq<char>) -> Seq<char> {
    text_digest("retry\0"@ + export_id)
}

/// An Export that is to be rendered again, as it was accepted.
pub open spec fn rearmed(row: ExportRow) -> ExportRow {
    ExportRow {
        state: ExportState::Queued,
        outcome: None,
        attempt_incarnation: None,
        attempt_sequence: None,
        ..row
    }
}

/// What a request to retry an Export is answered, up to the reservation: none if
/// it is to be retried where there is room.
pub open spec fn retry_refusal(
    facts: RetryFacts,
    export_id: Seq<char>,
    bundle_id: Seq<char>,
    now: u64,
) -> Option<ExportRetryOutcome> {
    let row = facts.current->0;
    if facts.current is None {
        if facts.tombstone {
            Some(ExportRetryOutcome::Expired)
        } else {
            Some(ExportRetryOutcome::Unknown)
        }
    } else if facts.receipt is Some {
        if facts.receipt->0.export_id@ == export_id && facts.receipt->0.payload_digest@
            == retry_digest(export_id) {
            Some(ExportRetryOutcome::Replayed(record_of(row)))
        } else {
            Some(ExportRetryOutcome::RequestConflict)
        }
    } else if row.state != ExportState::Failed && row.state != ExportState::Cancelled {
        Some(ExportRetryOutcome::NotRetriable)
    } else if row.retain_until is None {
        Some(ExportRetryOutcome::Unknown)
    } else if row.retain_until->0 <= now {
        Some(ExportRetryOutcome::Expired)
    } else if row.bundle_id@ != bundle_id || facts.recipe is None {
        Some(ExportRetryOutcome::OutputUnavailable)
    } else if !facts.recipe->0.source_available {
        Some(ExportRetryOutcome::ResourceUnavailable)
    } else if facts.recipe->0.current_source_revision@ != row.source_revision@ {
        Some(ExportRetryOutcome::OutputUnavailable)
    } else {
        None
    }
}

fn retry_answer(outcome: ExportRetryOutcome) -> (change: ExportRetryChange)
    ensures
        change == (ExportRetryChange { outcome, row: None, receipt: None }),
{
    ExportRetryChange { outcome, row: None, receipt: None }
}

/// What a retry leads to where nothing refuses it.
pub open spec fn retried(
    change: Result<ExportRetryChange, PersistenceError>,
    facts: RetryFacts,
    export_id: Seq<char>,
    allowance: u64,
    now: u64,
) -> bool {
    let held = reserved(facts.holds@, facts.leases@, now);
    let next = rearmed(facts.current->0);
    if held > i64::MAX {
        change == Err::<ExportRetryChange, PersistenceError>(PersistenceError::Storage)
    } else if held + MAXIMUM_EXPORT_BYTES > allowance {
        change == Ok::<ExportRetryChange, PersistenceError>(
            ExportRetryChange {
                outcome: ExportRetryOutcome::RetainedOutputFull,
                row: None,
                receipt: None,
            },
        )
    } else {
        &&& change is Ok
        &&& change->Ok_0.outcome == ExportRetryOutcome::Retried(record_of(next))
        &&& change->Ok_0.row == Some(next)
        &&& change->Ok_0.receipt is Some
        &&& receipt_of(change->Ok_0.receipt->0, retry_digest(export_id), export_id, now)
    }
}

/// Whether a change answers a request to retry an Export.
pub open spec fn retry_answered(
    facts: RetryFacts,
    export_id: Seq<char>,
    request_id: Seq<char>,
    bundle_id: Seq<char>,
    allowance: u64,
    now: u64,
    change: Result<ExportRetryChange, PersistenceError>,
) -> bool {
    if !request_id_valid(request_id, MAXIMUM_EXPORT_REQUEST_ID_BYTES) || (facts.current is Some
        && !row_whole(facts.current->0, opt_text(facts.digest))) {
        change == Err::<ExportRetryChange, PersistenceError>(PersistenceError::Storage)
    } else {
        match retry_refusal(facts, export_id, bundle_id, now) {
            Some(outcome) => change == Ok::<ExportRetryChange, PersistenceError>(
                ExportRetryChange { outcome, row: None, receipt: None },
            ),
            None => retried(change, facts, export_id, allowance, now),
        }
    }
}

/// Decides a request to retry an Export.
pub fn retry_export(
    facts: &RetryFacts,
    export_id: &String,
    request_id: &String,
    expected_bundle_id: &String,
    allowance: u64,
    now: u64,
) -> (change: Result<ExportRetryChange, PersistenceError>)
    ensures
        retry_answered(
            *facts,
            export_id@,
            request_id@,
            expected_bundle_id@,
            allowance,
            now,
            change,
        ),
{
    if !validate_export_request_id(request_id) {
        return Err(PersistenceError::Storage);
    }
    let mut subject: String = "retry\0".to_owned();
    subject.append(export_id.as_str());
    let digest: String = digest_text(&subject);
    let row: &ExportRow = match &facts.current {
        Some(row) => row,
        None => {
            return Ok(
                retry_answer(
                    if facts.tombstone {
                        ExportRetryOutcome::Expired
                    } else {
                        ExportRetryOutcome::Unknown
                    },
                ),
            );
        },
    };
    let record: ExportRecord = match export_record_from_row(row, &facts.digest) {
        Ok(record) => record,
        Err(error) => {
            return Err(error);
        },
    };
    match &facts.receipt {
        Some(receipt) => {
            return Ok(
                retry_answer(
                    if same_text(&receipt.export_id, export_id) && same_text(
                        &receipt.payload_digest,
                        &digest,
                    ) {
                        ExportRetryOutcome::Replayed(record)
                    } else {
                        ExportRetryOutcome::RequestConflict
                    },
                ),
            );
        },
        None => {},
    }
    if row.state != ExportState::Failed && row.state != ExportState::Cancelled {
        return Ok(retry_answer(ExportRetryOutcome::NotRetriable));
    }
    match row.retain_until {
        None => {
            return Ok(retry_answer(ExportRetryOutcome::Unknown));
        },
        Some(until) => {
            if until <= now {
                return Ok(retry_answer(ExportRetryOutcome::Expired));
            }
        },
    }
    if !same_text(&row.bundle_id, expected_bundle_id) {
        return Ok(retry_answer(ExportRetryOutcome::OutputUnavailable));
    }
    match &facts.recipe {
        None => {
            return Ok(retry_answer(ExportRetryOutcome::OutputUnavailable));
        },
        Some(recipe) => {
            if !recipe.source_available {
                return Ok(retry_answer(ExportRetryOutcome::ResourceUnavailable));
            }
            if !same_text(&recipe.current_source_revision, &row.source_revision) {
                return Ok(retry_answer(ExportRetryOutcome::OutputUnavailable));
            }
        },
    }
    match reservable(&facts.holds, &facts.leases, now, allowance) {
        Ok(fits) => {
            if !fits {
                return Ok(retry_answer(ExportRetryOutcome::RetainedOutputFull));
            }
        },
        Err(error) => {
            return Err(error);
        },
    }
    let mut next: ExportRow = clone_export_row(row);
    next.state = ExportState::Queued;
    next.outcome = None;
    next.attempt_incarnation = None;
    next.attempt_sequence = None;
    match export_record_from_row(&next, &facts.digest) {
        Ok(record) => Ok(
            ExportRetryChange {
                outcome: ExportRetryOutcome::Retried(record),
                row: Some(next),
                receipt: Some(
                    ExportReceipt {
                        payload_digest: digest,
                        export_id: export_id.clone(),
                        created_at: now,
                        settled_at: None,
                    },
                ),
            },
        ),
        Err(error) => Err(error),
    }
}

/// A retry starts from a settled failure or cancellation alone, within its
/// retention and on the captured bundle and source, and renders what was accepted
/// again.
pub proof fn law_retries_render_what_was_accepted(
    facts: RetryFacts,
    export_id: Seq<char>,
    bundle_id: Seq<char>,
    now: u64,
)
    requires
        retry_refusal(facts, export_id, bundle_id, now) is None,
    ensures
        facts.current is Some,
        facts.receipt is None,
        facts.current->0.state == ExportState::Failed || facts.current->0.state
            == ExportState::Cancelled,
        facts.current->0.retain_until is Some,
        facts.current->0.retain_until->0 > now,
        facts.current->0.bundle_id@ == bundle_id,
        record_of(rearmed(facts.current->0)).snapshot == record_of(facts.current->0).snapshot,
        rearmed(facts.current->0).id == facts.current->0.id,
        !terminal(rearmed(facts.current->0).state),
{
}

/// A retry that was accepted is answered with the Export as it is when its
/// request is repeated.
pub proof fn law_repeated_retries_start_nothing(
    facts: RetryFacts,
    export_id: Seq<char>,
    bundle_id: Seq<char>,
    now: u64,
    receipt: ExportReceipt,
)
    requires
        facts.current is Some,
        facts.receipt == Some(receipt),
        receipt.export_id@ == export_id,
        receipt.payload_digest@ == retry_digest(export_id),
    ensures
        retry_refusal(facts, export_id, bundle_id, now) == Some(
            ExportRetryOutcome::Replayed(record_of(facts.current->0)),
        ),
{
}

/// The claim of an attempt to publish the artifact of an Export, as it is stored.
pub open spec fn publication_claim(incarnation: Seq<char>, sequence: nat) -> Seq<char> {
    "{\"incarnation\":"@ + json_text(incarnation) + ",\"sequence\":"@ + decimal(sequence) + "}"@
}

/// Writes the claim of an attempt to publish the artifact of an Export.
pub fn claim_export_publication(incarnation: &String, sequence: u64) -> (claim: String)
    ensures
        claim@ == publication_claim(incarnation@, sequence as nat),
{
    let mut claim: String = "{\"incarnation\":".to_owned();
    claim.append(write_json_text(incarnation).as_str());
    claim.append(",\"sequence\":");
    claim.append(decimal_text(sequence).as_str());
    claim.append("}");
    claim
}

/// What an attempt that claims the publication of an Export is answered: whether its
/// claim was written.
pub fn settle_publication_claim(written: bool) -> (answer: Result<bool, PersistenceError>)
    ensures
        answer == Ok::<bool, PersistenceError>(written),
{
    Ok(written)
}

/// Reads the records of rows: all of them, or a failure of storage. `digests` are
/// those of the recipes of the rows.
pub fn export_records(rows: &Vec<ExportRow>, digests: &Vec<Option<String>>) -> (records: Result<
    Vec<ExportRecord>,
    PersistenceError,
>)
    requires
        rows.len() == digests.len(),
    ensures
        if forall|i: int|
            0 <= i < rows.len() ==> row_whole(#[trigger] rows@[i], opt_text(digests@[i])) {
            records is Ok && records->Ok_0@ == Seq::new(rows@.len(), |i: int| record_of(rows@[i]))
        } else {
            records == Err::<Vec<ExportRecord>, PersistenceError>(PersistenceError::Storage)
        },
{
    let mut records: Vec<ExportRecord> = Vec::new();
    let mut i: usize = 0;
    while i < rows.len()
        invariant
            i <= rows.len(),
            rows.len() == digests.len(),
            forall|j: int|
                0 <= j < i ==> row_whole(#[trigger] rows@[j], opt_text(digests@[j])),
            records@ == Seq::new(i as nat, |j: int| record_of(rows@[j])),
        decreases rows.len() - i,
    {
        match export_record_from_row(&rows[i], &digests[i]) {
            Ok(record) => {
                records.push(record);
            },
            Err(error) => {
                assert(!row_whole(rows@[i as int], opt_text(digests@[i as int])));
                return Err(error);
            },
        }
        assert(records@ =~= Seq::new((i + 1) as nat, |j: int| record_of(rows@[j])));
        i = i + 1;
    }
    Ok(records)
}

/// Whether a change answers a request and stores nothing.
pub open spec fn only_answers(
    change: Result<ExportSubmitChange, PersistenceError>,
    outcome: ExportSubmitOutcome,
) -> bool {
    change is Ok && change->Ok_0.outcome == outcome && change->Ok_0.row is None
        && change->Ok_0.receipt is None
}

/// An Export is created only from an available RAW file whose recipe was saved for it
/// as it is, at the revisions that the request names, and only where nothing was
/// answered to the request before.
pub proof fn law_exports_are_created_from_available_raw_files(
    facts: SubmissionFacts,
    submission: ExportSubmission,
    now: u64,
    token: Seq<char>,
    change: Result<ExportSubmitChange, PersistenceError>,
)
    requires
        submitted(facts, submission, now, token, change),
        change is Ok,
        change->Ok_0.outcome is Created,
    ensures
        facts.receipt is None,
        facts.source is Some,
        facts.source == Some((OriginalKind::Raw, true)),
        facts.current is Some,
        facts.current->0.source_available,
        facts.current->0.recipe is Some,
        facts.current->0.current_source_revision@ == submission.expected_source_revision@,
        facts.current->0.recipe->0.source_revision@ == submission.expected_source_revision@,
        facts.current->0.recipe->0.revision@ == submission.expected_recipe_revision@,
        facts.capture is Some,
        facts.recapture is Some,
        facts.recapture->0@ == facts.capture->0@,
        submission.request_id@.len() > 0,
        submission.source_profile_id@.len() > 0,
        forall|i: int|
            0 <= i < facts.holds.len() ==> (#[trigger] facts.holds@[i]).id@ != "exp-"@ + token,
        reserved(facts.holds@, facts.leases@, now) + 2_147_483_648
            <= submission.retained_output_bytes_max,
{
}

/// What is stored of an Export that was created is what the request and the recipe say,
/// queued, with nothing rendered yet, and a receipt that leads back to it.
pub proof fn law_created_exports_hold_what_was_asked(
    facts: SubmissionFacts,
    submission: ExportSubmission,
    now: u64,
    token: Seq<char>,
    change: Result<ExportSubmitChange, PersistenceError>,
)
    requires
        submitted(facts, submission, now, token, change),
        change is Ok,
        change->Ok_0.outcome is Created,
    ensures
        ({
            let row = change->Ok_0.row->0;
            let record = change->Ok_0.outcome->Created_0;
            let receipt = change->Ok_0.receipt->0;
            let recipe = facts.current->0.recipe->0;
            &&& change->Ok_0.row is Some
            &&& row.id@ == "exp-"@ + token
            &&& row.photo_id@ == submission.photo_id@
            &&& row.state == ExportState::Queued
            &&& row.outcome is None
            &&& row.recipe_revision@ == recipe.revision@
            &&& row.exposure_ev == recipe.settings.exposure_ev
            &&& row.source_revision@ == submission.expected_source_revision@
            &&& row.source_profile_id@ == submission.source_profile_id@
            &&& row.source_size is None
            &&& row.source_sha256 is None
            &&& row.recipe_digest@ == facts.capture->0@
            &&& row.policy_id@ == submission.policy_id@
            &&& row.bundle_id@ == submission.bundle_id@
            &&& row.attempt_incarnation is None
            &&& row.attempt_sequence is None
            &&& row.artifact_size is None
            &&& row.artifact_sha256 is None
            &&& row.artifact_expires_at is None
            &&& row.artifact_width is None
            &&& row.artifact_height is None
            &&& row.artifact_profile_identity is None
            &&& row.created_at == now
            &&& row.settled_at is None
            &&& row.retain_until is None
            &&& record.id@ == row.id@
            &&& record.state == ExportState::Queued
            &&& record.created_at == now
            &&& record.snapshot.photo_id@ == submission.photo_id@
            &&& record.snapshot.policy_id@ == submission.policy_id@
            &&& record.snapshot.bundle_id@ == submission.bundle_id@
            &&& record.snapshot.source_kind == OriginalKind::Raw
            &&& record.snapshot.settings.exposure_ev == recipe.settings.exposure_ev
            &&& record.source is None
            &&& record.attempt is None
            &&& record.artifact is None
            &&& change->Ok_0.receipt is Some
            &&& receipt.payload_digest@ == submission.payload_digest@
            &&& receipt.export_id@ == row.id@
            &&& receipt.created_at == now
            &&& receipt.settled_at is None
        }),
{
}

/// A request for an Export that is not created stores nothing.
pub proof fn law_unanswered_exports_store_nothing(
    facts: SubmissionFacts,
    submission: ExportSubmission,
    now: u64,
    token: Seq<char>,
    change: Result<ExportSubmitChange, PersistenceError>,
)
    requires
        submitted(facts, submission, now, token, change),
        change is Ok,
        !(change->Ok_0.outcome is Created),
    ensures
        change->Ok_0.row is None,
        change->Ok_0.receipt is None,
{
}

/// A new request for an Export is refused for the first of these reasons that holds: it
/// is malformed, its Photo is not known, its source is no RAW file, the source is not
/// available, it has no recipe, the source is another one by now, the recipe was saved
/// for another source, the recipe is another one by now, it cannot be rendered. Each
/// reason has an answer of its own, and nothing is stored.
pub proof fn law_requests_for_exports_are_refused(
    facts: SubmissionFacts,
    submission: ExportSubmission,
    now: u64,
    token: Seq<char>,
    change: Result<ExportSubmitChange, PersistenceError>,
)
    requires
        submitted(facts, submission, now, token, change),
    ensures
        submission.request_id@.len() == 0 || submission.source_profile_id@.len() == 0
            || encode_utf8(submission.request_id@).len() > 128 ==> only_answers(
            change,
            ExportSubmitOutcome::InvalidSettings,
        ),
        request_id_valid(submission.request_id@, 128) && submission.source_profile_id@.len() > 0
            && facts.receipt is None ==> {
            &&& facts.current is None || facts.source is None ==> only_answers(
                change,
                ExportSubmitOutcome::UnknownPhoto,
            )
            &&& facts.current is Some && facts.source is Some ==> {
                let current = facts.current->0;
                let source = facts.source->0;
                let kind = source.0;
                let available = source.1;
                let recipe = current.recipe->0;
                &&& kind != OriginalKind::Raw ==> only_answers(
                    change,
                    ExportSubmitOutcome::UnsupportedPhoto,
                )
                &&& kind == OriginalKind::Raw && !(available && current.source_available)
                    ==> only_answers(change, ExportSubmitOutcome::Unavailable)
                &&& kind == OriginalKind::Raw && available && current.source_available ==> {
                    &&& current.recipe is None ==> only_answers(
                        change,
                        ExportSubmitOutcome::MissingRecipe,
                    )
                    &&& current.recipe is Some && current.current_source_revision@
                        != submission.expected_source_revision@ ==> only_answers(
                        change,
                        ExportSubmitOutcome::SourceChanged(current),
                    )
                    &&& current.recipe is Some && current.current_source_revision@
                        == submission.expected_source_revision@ ==> {
                        &&& recipe.source_revision@ != submission.expected_source_revision@
                            ==> only_answers(change, ExportSubmitOutcome::RequiresRebind)
                        &&& recipe.source_revision@ == submission.expected_source_revision@
                            && recipe.revision@ != submission.expected_recipe_revision@
                            ==> only_answers(change, ExportSubmitOutcome::RecipeConflict(current))
                        &&& recipe.source_revision@ == submission.expected_source_revision@
                            && recipe.revision@ == submission.expected_recipe_revision@
                            && facts.capture is None ==> only_answers(
                            change,
                            ExportSubmitOutcome::InvalidSettings,
                        )
                    }
                }
            }
        },
{
}

/// A request for an Export that nothing stands against is answered: it is created where
/// the retained output has room for one more artifact, and told that there is none
/// where it has not.
pub proof fn law_requests_for_exports_are_accepted(
    facts: SubmissionFacts,
    submission: ExportSubmission,
    now: u64,
    token: Seq<char>,
    change: Result<ExportSubmitChange, PersistenceError>,
)
    requires
        submitted(facts, submission, now, token, change),
        request_id_valid(submission.request_id@, 128),
        submission.source_profile_id@.len() > 0,
        facts.receipt is None,
        facts.source == Some((OriginalKind::Raw, true)),
        facts.current is Some,
        facts.current->0.source_available,
        facts.current->0.recipe is Some,
        facts.current->0.current_source_revision@ == submission.expected_source_revision@,
        facts.current->0.recipe->0.source_revision@ == submission.expected_source_revision@,
        facts.current->0.recipe->0.revision@ == submission.expected_recipe_revision@,
        facts.capture is Some,
        reserved(facts.holds@, facts.leases@, now) <= i64::MAX,
    ensures
        reserved(facts.holds@, facts.leases@, now) + 2_147_483_648
            > submission.retained_output_bytes_max ==> only_answers(
            change,
            ExportSubmitOutcome::RetainedOutputFull,
        ),
        reserved(facts.holds@, facts.leases@, now) + 2_147_483_648
            <= submission.retained_output_bytes_max && facts.recapture is Some
            && facts.recapture->0@ == facts.capture->0@ && stored_length(
            submission.expected_recipe_revision@,
        ) > 0 && stored_length(submission.expected_source_revision@) > 0 && 1 <= stored_length(
            submission.source_profile_id@,
        ) <= 64 && stored_length(facts.capture->0@) == 64 && stored_length(submission.policy_id@)
            == 64 && stored_length(submission.bundle_id@) == 64 && now <= i64::MAX && finite(
            facts.current->0.recipe->0.settings.exposure_ev,
        ) && (forall|i: int|
            0 <= i < facts.holds.len() ==> (#[trigger] facts.holds@[i]).id@ != "exp-"@ + token)
            ==> change is Ok && change->Ok_0.outcome is Created,
{
}

/// A request for an Export that was answered before is answered from its receipt: with
/// a conflict where it asked for something else then, as expired where the Export is
/// gone, and with the Export that there is otherwise. Nothing is stored.
pub proof fn law_repeated_requests_for_exports_are_replayed(
    facts: SubmissionFacts,
    submission: ExportSubmission,
    now: u64,
    token: Seq<char>,
    change: Result<ExportSubmitChange, PersistenceError>,
)
    requires
        submitted(facts, submission, now, token, change),
        request_id_valid(submission.request_id@, 128),
        submission.source_profile_id@.len() > 0,
        facts.receipt is Some,
    ensures
        facts.receipt->0.payload_digest@ != submission.payload_digest@ ==> only_answers(
            change,
            ExportSubmitOutcome::RequestConflict,
        ),
        facts.receipt->0.payload_digest@ == submission.payload_digest@ && facts.receipt_row is None
            ==> only_answers(change, ExportSubmitOutcome::Expired),
        facts.receipt->0.payload_digest@ == submission.payload_digest@ && facts.receipt_row is Some
            && change is Ok ==> change->Ok_0.outcome is Existing && change->Ok_0.row is None
            && change->Ok_0.receipt is None && change->Ok_0.outcome->Existing_0.id@
            == facts.receipt_row->0.id@ && change->Ok_0.outcome->Existing_0.state
            == facts.receipt_row->0.state,
        facts.receipt->0.payload_digest@ == submission.payload_digest@ && facts.receipt_row is Some
            ==> (change is Ok <==> row_whole(facts.receipt_row->0, opt_text(facts.receipt_digest))),
{
}

/// What was accepted of an Export, which no step changes.
pub open spec fn same_order(before: ExportRow, after: ExportRow) -> bool {
    &&& after.id@ == before.id@
    &&& after.photo_id@ == before.photo_id@
    &&& after.recipe_revision@ == before.recipe_revision@
    &&& after.exposure_ev == before.exposure_ev
    &&& after.source_revision@ == before.source_revision@
    &&& after.source_profile_id@ == before.source_profile_id@
    &&& after.recipe_digest@ == before.recipe_digest@
    &&& after.policy_id@ == before.policy_id@
    &&& after.bundle_id@ == before.bundle_id@
    &&& after.created_at == before.created_at
}

/// The evidence of a source is recorded on an Export that is not settled, as it was
/// read, and nothing else of the Export changes. A source without bytes, one above the
/// limit, and a digest of another length are refused.
pub proof fn law_sources_are_recorded_as_read(
    row: ExportRow,
    digest: Option<Seq<char>>,
    size: u64,
    sha256: String,
)
    ensures
        ({
            let update = source_recorded(Some(row), digest, size, sha256);
            let next = update->Ok_0.row->0;
            &&& size == 0 || size > 2_147_483_648 || encode_utf8(sha256@).len() != 64 ==> update
                is Err
            &&& update is Ok && update->Ok_0.row is Some ==> {
                &&& row.state == ExportState::Queued || row.state == ExportState::Running
                &&& same_order(row, next)
                &&& next.source_size == Some(size)
                &&& next.source_sha256 is Some
                &&& next.source_sha256->0@ == sha256@
                &&& next.state == row.state
                &&& next.outcome == row.outcome
                &&& next.attempt_incarnation == row.attempt_incarnation
                &&& next.attempt_sequence == row.attempt_sequence
                &&& next.artifact_size == row.artifact_size
                &&& next.artifact_sha256 == row.artifact_sha256
                &&& next.artifact_expires_at == row.artifact_expires_at
                &&& next.settled_at == row.settled_at
                &&& next.retain_until == row.retain_until
                &&& update->Ok_0.record is Some
                &&& update->Ok_0.record->0.source is Some
                &&& update->Ok_0.record->0.source->0.size == size
                &&& update->Ok_0.record->0.source->0.sha256@ == sha256@
            }
            &&& 0 < size <= 2_147_483_648 && encode_utf8(sha256@).len() == 64 && stored_length(
                sha256@,
            ) == 64 && row_whole(row, digest) && (row.state == ExportState::Queued || row.state
                == ExportState::Running) ==> update is Ok && update->Ok_0.row is Some
        }),
{
}

/// A settled success holds the artifact as it was published and keeps it for a week; a
/// settled failure holds its reason, no artifact, and is kept for a week too. What was
/// accepted of the Export stays, and so do its attempt and its source.
pub proof fn law_settlements_are_stored(
    row: ExportRow,
    digest: Option<Seq<char>>,
    settlement: ExportSettlement,
)
    ensures
        ({
            let update = export_settled(Some(row), digest, settlement);
            let next = update->Ok_0.row->0;
            &&& update is Ok && update->Ok_0.row is Some ==> {
                &&& row.state == ExportState::Queued || row.state == ExportState::Running
                &&& same_order(row, next)
                &&& next.attempt_incarnation == row.attempt_incarnation
                &&& next.attempt_sequence == row.attempt_sequence
                &&& next.source_size == row.source_size
                &&& next.source_sha256 == row.source_sha256
                &&& next.settled_at is Some
                &&& next.retain_until is Some
                &&& next.retain_until->0 == next.settled_at->0 + 604_800
                &&& settlement matches ExportSettlement::Succeeded {
                    artifact_size,
                    artifact_sha256,
                    published_at,
                    artifact_width,
                    artifact_height,
                    artifact_profile_identity,
                } ==> {
                    &&& next.state == ExportState::Succeeded
                    &&& next.outcome is None
                    &&& artifact_size > 0
                    &&& next.artifact_size == Some(artifact_size)
                    &&& next.artifact_sha256 == Some(artifact_sha256)
                    &&& next.artifact_expires_at is Some
                    &&& next.artifact_expires_at->0 == published_at + 604_800
                    &&& next.artifact_width == Some(artifact_width)
                    &&& next.artifact_height == Some(artifact_height)
                    &&& next.artifact_profile_identity == Some(artifact_profile_identity)
                    &&& next.settled_at == Some(published_at)
                }
                &&& settlement matches ExportSettlement::Failed { outcome, settled_at } ==> {
                    &&& next.state == ExportState::Failed
                    &&& next.outcome == Some(outcome)
                    &&& outcome@.len() > 0
                    &&& encode_utf8(outcome@).len() <= 200
                    &&& next.artifact_size is None
                    &&& next.artifact_sha256 is None
                    &&& next.artifact_expires_at is None
                    &&& next.settled_at == Some(settled_at)
                }
            }
            &&& row_whole(row, digest) && (row.state == ExportState::Queued || row.state
                == ExportState::Running) ==> {
                &&& settlement matches ExportSettlement::Succeeded {
                    artifact_size,
                    artifact_sha256,
                    published_at,
                    artifact_width,
                    artifact_height,
                    artifact_profile_identity,
                } ==> (0 < artifact_size <= i64::MAX && stored_length(artifact_sha256@) == 64
                    && artifact_width > 0 && artifact_height > 0 && stored_length(
                    artifact_profile_identity@,
                ) == 64 && published_at + 604_800 <= i64::MAX ==> update is Ok
                    && update->Ok_0.row is Some)
                &&& settlement matches ExportSettlement::Failed { outcome, settled_at } ==> (
                stored_length(outcome@) > 0 && outcome@.len() > 0 && encode_utf8(outcome@).len()
                    <= 200 && settled_at + 604_800 <= i64::MAX && no_artifact(row) ==> update is Ok
                    && update->Ok_0.row is Some)
            }
        }),
{
}

/// A cancelled Export is settled at the time of the request and kept for a week, with
/// no artifact. What was accepted of it stays, and so do its attempt and its source.
pub proof fn law_cancellations_are_stored(row: ExportRow, digest: Option<Seq<char>>, now: u64)
    ensures
        ({
            let update = export_cancelled(Some(row), digest, now);
            let next = update->Ok_0.row->0;
            &&& update is Ok && update->Ok_0.row is Some ==> {
                &&& row.state == ExportState::Queued || row.state == ExportState::Running
                &&& same_order(row, next)
                &&& next.state == ExportState::Cancelled
                &&& next.outcome == row.outcome
                &&& next.attempt_incarnation == row.attempt_incarnation
                &&& next.attempt_sequence == row.attempt_sequence
                &&& next.source_size == row.source_size
                &&& next.source_sha256 == row.source_sha256
                &&& next.artifact_size is None
                &&& next.artifact_sha256 is None
                &&& next.artifact_expires_at is None
                &&& next.settled_at == Some(now)
                &&& next.retain_until is Some
                &&& next.retain_until->0 == now + 604_800
            }
            &&& row_whole(row, digest) && no_artifact(row) && (row.state == ExportState::Queued
                || row.state == ExportState::Running) && now + 604_800 <= i64::MAX ==> update
                is Ok && update->Ok_0.row is Some
        }),
{
}

/// An attempt is begun on an Export that is not settled: the Export runs, and holds the
/// attempt as it was named. An attempt is named by thirty-two hexadecimal digits and a
/// positive number.
pub proof fn law_attempts_are_stored(
    row: ExportRow,
    digest: Option<Seq<char>>,
    attempt: ExportAttempt,
)
    ensures
        ({
            let update = attempt_begun(Some(row), digest, attempt);
            let next = update->Ok_0.row->0;
            &&& attempt.sequence == 0 || attempt.incarnation@.len() != 32 ==> update is Err
            &&& (exists|i: int|
                0 <= i < attempt.incarnation@.len() && !('0' <= #[trigger] attempt.incarnation@[i]
                    <= '9') && !('a' <= attempt.incarnation@[i] <= 'f')) ==> update is Err
            &&& update is Ok && update->Ok_0.row is Some ==> {
                &&& row.state == ExportState::Queued || row.state == ExportState::Running
                &&& same_order(row, next)
                &&& next.state == ExportState::Running
                &&& next.attempt_incarnation == Some(attempt.incarnation)
                &&& next.attempt_sequence == Some(attempt.sequence)
                &&& next.outcome == row.outcome
                &&& next.source_size == row.source_size
                &&& next.source_sha256 == row.source_sha256
                &&& next.artifact_size == row.artifact_size
                &&& next.artifact_sha256 == row.artifact_sha256
                &&& next.artifact_expires_at == row.artifact_expires_at
                &&& next.settled_at == row.settled_at
                &&& next.retain_until == row.retain_until
                &&& update->Ok_0.record is Some
                &&& update->Ok_0.record->0.attempt == Some(attempt)
            }
            &&& row_whole(row, digest) && (row.state == ExportState::Queued || row.state
                == ExportState::Running) && 0 < attempt.sequence <= i64::MAX
                && attempt.incarnation@.len() == 32 && (forall|i: int|
                0 <= i < 32 ==> ('0' <= #[trigger] attempt.incarnation@[i] <= '9') || ('a'
                    <= attempt.incarnation@[i] <= 'f')) ==> update is Ok && update->Ok_0.row is Some
        }),
{
}

/// No step changes an Export that is settled, and none finds one that is not stored: a
/// settled Export is told as it stands.
pub proof fn law_settled_exports_stay(
    current: Option<ExportRow>,
    digest: Option<Seq<char>>,
    size: u64,
    sha256: String,
    settlement: ExportSettlement,
    attempt: ExportAttempt,
    now: u64,
)
    requires
        current is Some ==> current->0.state == ExportState::Succeeded || current->0.state
            == ExportState::Failed || current->0.state == ExportState::Cancelled,
    ensures
        export_cancelled(current, digest, now) matches Ok(update) ==> update.row is None
            && update.record is Some == current is Some && (current is Some ==> update.record->0.id@
            == current->0.id@ && update.record->0.state == current->0.state),
        export_settled(current, digest, settlement) matches Ok(update) ==> update.row is None
            && update.record is Some == current is Some && (current is Some ==> update.record->0.id@
            == current->0.id@ && update.record->0.state == current->0.state),
        attempt_begun(current, digest, attempt) matches Ok(update) ==> update.row is None
            && update.record is Some == current is Some && (current is Some ==> update.record->0.id@
            == current->0.id@ && update.record->0.state == current->0.state),
        source_recorded(current, digest, size, sha256) matches Ok(update) ==> update.row is None
            && update.record is Some == current is Some && (current is Some ==> update.record->0.id@
            == current->0.id@ && update.record->0.state == current->0.state),
        current is None || row_whole(current->0, digest) ==> export_cancelled(current, digest, now)
            is Ok,
{
}

/// An Export is retried only where it failed or was cancelled, is still kept, was made
/// for the same bundle, and its source is available and as it was. It is then queued
/// again as it was accepted, without its failure and its attempt.
pub proof fn law_retries_rearm_what_was_accepted(
    facts: RetryFacts,
    export_id: Seq<char>,
    request_id: Seq<char>,
    bundle_id: Seq<char>,
    allowance: u64,
    now: u64,
    change: Result<ExportRetryChange, PersistenceError>,
)
    requires
        retry_answered(facts, export_id, request_id, bundle_id, allowance, now, change),
        change is Ok,
    ensures
        change->Ok_0.outcome is Retried ==> {
            let row = facts.current->0;
            let next = change->Ok_0.row->0;
            let receipt = change->Ok_0.receipt->0;
            &&& facts.receipt is None
            &&& facts.current is Some
            &&& row.state == ExportState::Failed || row.state == ExportState::Cancelled
            &&& row.retain_until is Some
            &&& row.retain_until->0 > now
            &&& row.bundle_id@ == bundle_id
            &&& facts.recipe is Some
            &&& facts.recipe->0.source_available
            &&& facts.recipe->0.current_source_revision@ == row.source_revision@
            &&& reserved(facts.holds@, facts.leases@, now) + 2_147_483_648 <= allowance
            &&& change->Ok_0.row is Some
            &&& same_order(row, next)
            &&& next.state == ExportState::Queued
            &&& next.outcome is None
            &&& next.attempt_incarnation is None
            &&& next.attempt_sequence is None
            &&& next.source_size == row.source_size
            &&& next.source_sha256 == row.source_sha256
            &&& next.artifact_size == row.artifact_size
            &&& next.artifact_expires_at == row.artifact_expires_at
            &&& next.settled_at == row.settled_at
            &&& next.retain_until == row.retain_until
            &&& change->Ok_0.outcome->Retried_0.id@ == row.id@
            &&& change->Ok_0.outcome->Retried_0.state == ExportState::Queued
            &&& change->Ok_0.receipt is Some
            &&& receipt.export_id@ == export_id
            &&& receipt.payload_digest@ == text_digest("retry\0"@ + export_id)
            &&& receipt.created_at == now
            &&& receipt.settled_at is None
        },
        !(change->Ok_0.outcome is Retried) ==> change->Ok_0.row is None && change->Ok_0.receipt
            is None,
{
}

/// Whether a change answers a request to retry an Export and stores nothing.
pub open spec fn only_answers_retry(
    change: Result<ExportRetryChange, PersistenceError>,
    outcome: ExportRetryOutcome,
) -> bool {
    change is Ok && change->Ok_0.outcome == outcome && change->Ok_0.row is None
        && change->Ok_0.receipt is None
}

/// A request to retry an Export is answered by the first of these that holds: the
/// Export is gone, or never was; the request was answered before; the Export did not
/// fail; it is no longer kept; its bundle or its source is another one by now; its
/// source is not available; there is no room.
pub proof fn law_retries_are_refused(
    facts: RetryFacts,
    export_id: Seq<char>,
    request_id: Seq<char>,
    bundle_id: Seq<char>,
    allowance: u64,
    now: u64,
    change: Result<ExportRetryChange, PersistenceError>,
)
    requires
        retry_answered(facts, export_id, request_id, bundle_id, allowance, now, change),
        request_id_valid(request_id, 128),
        facts.current is Some ==> row_whole(facts.current->0, opt_text(facts.digest)),
    ensures
        facts.current is None && facts.tombstone ==> only_answers_retry(
            change,
            ExportRetryOutcome::Expired,
        ),
        facts.current is None && !facts.tombstone ==> only_answers_retry(
            change,
            ExportRetryOutcome::Unknown,
        ),
        facts.current is Some && facts.receipt is Some ==> {
            &&& facts.receipt->0.export_id@ == export_id && facts.receipt->0.payload_digest@
                == text_digest("retry\0"@ + export_id) ==> change is Ok && change->Ok_0.row is None
                && change->Ok_0.outcome is Replayed && change->Ok_0.outcome->Replayed_0.id@
                == facts.current->0.id@ && change->Ok_0.outcome->Replayed_0.state
                == facts.current->0.state
            &&& facts.receipt->0.export_id@ != export_id || facts.receipt->0.payload_digest@
                != text_digest("retry\0"@ + export_id) ==> only_answers_retry(
                change,
                ExportRetryOutcome::RequestConflict,
            )
        },
        facts.current is Some && facts.receipt is None ==> {
            let row = facts.current->0;
            let failed = row.state == ExportState::Failed || row.state == ExportState::Cancelled;
            let kept = row.retain_until is Some && row.retain_until->0 > now;
            let same = row.bundle_id@ == bundle_id && facts.recipe is Some;
            &&& !failed ==> only_answers_retry(change, ExportRetryOutcome::NotRetriable)
            &&& failed && row.retain_until is None ==> only_answers_retry(
                change,
                ExportRetryOutcome::Unknown,
            )
            &&& failed && row.retain_until is Some && !kept ==> only_answers_retry(
                change,
                ExportRetryOutcome::Expired,
            )
            &&& failed && kept && !same ==> only_answers_retry(
                change,
                ExportRetryOutcome::OutputUnavailable,
            )
            &&& failed && kept && same && !facts.recipe->0.source_available ==> only_answers_retry(
                change,
                ExportRetryOutcome::ResourceUnavailable,
            )
            &&& failed && kept && same && facts.recipe->0.source_available
                && facts.recipe->0.current_source_revision@ != row.source_revision@
                ==> only_answers_retry(change, ExportRetryOutcome::OutputUnavailable)
            &&& failed && kept && same && facts.recipe->0.source_available
                && facts.recipe->0.current_source_revision@ == row.source_revision@ && reserved(
                facts.holds@,
                facts.leases@,
                now,
            ) <= i64::MAX ==> {
                &&& reserved(facts.holds@, facts.leases@, now) + 2_147_483_648 > allowance
                    ==> only_answers_retry(change, ExportRetryOutcome::RetainedOutputFull)
                &&& reserved(facts.holds@, facts.leases@, now) + 2_147_483_648 <= allowance
                    ==> change is Ok && change->Ok_0.outcome is Retried
            }
        },
{
}

/// A request for an Export is refused before anything is looked up exactly where its
/// identity is empty, too long or holds a control character, or it names no profile. A
/// named attempt has a number above zero and thirty-two lower-case hexadecimal digits.
pub proof fn law_requests_for_exports_are_checked(
    submission: ExportSubmission,
    refusal: Option<ExportSubmitOutcome>,
    attempt: ExportAttempt,
    valid: bool,
    digest: String,
)
    requires
        call_ensures(refuse_request, (&submission,), refusal),
        call_ensures(valid_attempt, (&attempt,), valid),
        call_ensures(export_payload_digest, (&submission,), digest),
    ensures
        refusal is Some ==> refusal->0 is InvalidSettings,
        refusal is None <==> {
            &&& 0 < submission.request_id@.len()
            &&& encode_utf8(submission.request_id@).len() <= 128
            &&& forall|i: int|
                0 <= i < submission.request_id@.len() ==> 32 <= (
                #[trigger] submission.request_id@[i] as int) && !(127
                    <= submission.request_id@[i] as int && submission.request_id@[i] as int <= 159)
            &&& 0 < submission.source_profile_id@.len()
        },
        valid <==> {
            &&& 1 <= attempt.sequence
            &&& attempt.incarnation@.len() == 32
            &&& forall|i: int|
                0 <= i < 32 ==> ('0' <= #[trigger] attempt.incarnation@[i] <= '9') || ('a'
                    <= attempt.incarnation@[i] <= 'f')
        },
        digest@ == submission.payload_digest@,
{
}

/// A claim of a publication names the run that makes it and the number of its attempt;
/// whether it was taken is told as it was stored.
pub proof fn law_claims_name_their_attempt(
    incarnation: String,
    sequence: u64,
    claim: String,
    written: bool,
    answer: Result<bool, PersistenceError>,
)
    requires
        call_ensures(claim_export_publication, (&incarnation, sequence), claim),
        call_ensures(settle_publication_claim, (written,), answer),
    ensures
        claim@ == "{\"incarnation\":"@ + json_text(incarnation@) + ",\"sequence\":"@ + decimal(
            sequence as nat,
        ) + "}"@,
        answer matches Ok(taken) && taken == written,
{
}

} // verus!
