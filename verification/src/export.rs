//! Exports of developed Photos: their stored rows, the records read from them,
//! and the keys and identities around them.
use crate::binary::Real;
use crate::codec::OriginalKind;
use crate::edit_recipe::{
    request_id_valid, valid_request_id, EditRecipeSettings, WhiteBalanceIntent,
};
use crate::error::PersistenceError;
use crate::text::{clone_opt_text, is_text, opt_text, same_text};
use vstd::prelude::*;
use vstd::string::*;

verus! {

/// The longest identity of a request, in bytes.
pub const MAXIMUM_EXPORT_REQUEST_ID_BYTES: usize = 128;

/// The longest text that tells why an Export failed, in bytes.
pub const MAXIMUM_EXPORT_OUTCOME_BYTES: usize = 200;

/// Where an Export stands.
#[derive(Clone, Copy, Debug, PartialEq, Eq, Structural)]
pub enum ExportState {
    Queued,
    Running,
    Succeeded,
    Failed,
    Cancelled,
}

/// The stored name of a state.
pub open spec fn state_name(state: ExportState) -> Seq<char> {
    match state {
        ExportState::Queued => "queued"@,
        ExportState::Running => "running"@,
        ExportState::Succeeded => "succeeded"@,
        ExportState::Failed => "failed"@,
        ExportState::Cancelled => "cancelled"@,
    }
}

/// The state that a stored name stands for.
pub open spec fn state_of(text: Seq<char>) -> Option<ExportState> {
    if text == "queued"@ {
        Some(ExportState::Queued)
    } else if text == "running"@ {
        Some(ExportState::Running)
    } else if text == "succeeded"@ {
        Some(ExportState::Succeeded)
    } else if text == "failed"@ {
        Some(ExportState::Failed)
    } else if text == "cancelled"@ {
        Some(ExportState::Cancelled)
    } else {
        None
    }
}

/// Whether an Export is settled.
pub open spec fn terminal(state: ExportState) -> bool {
    state == ExportState::Succeeded || state == ExportState::Failed || state
        == ExportState::Cancelled
}

impl ExportState {
    /// The stored name of the state.
    pub fn name(self) -> (name: &'static str)
        ensures
            name@ == state_name(self),
    {
        match self {
            ExportState::Queued => "queued",
            ExportState::Running => "running",
            ExportState::Succeeded => "succeeded",
            ExportState::Failed => "failed",
            ExportState::Cancelled => "cancelled",
        }
    }

    /// Reads a state from its stored name.
    pub fn parse_name(text: &String) -> (state: Option<ExportState>)
        ensures
            state == state_of(text@),
    {
        if is_text(text, "queued") {
            Some(ExportState::Queued)
        } else if is_text(text, "running") {
            Some(ExportState::Running)
        } else if is_text(text, "succeeded") {
            Some(ExportState::Succeeded)
        } else if is_text(text, "failed") {
            Some(ExportState::Failed)
        } else if is_text(text, "cancelled") {
            Some(ExportState::Cancelled)
        } else {
            None
        }
    }

    /// Whether the Export is settled.
    pub fn is_terminal(self) -> (answer: bool)
        ensures
            answer == terminal(self),
    {
        match self {
            ExportState::Succeeded | ExportState::Failed | ExportState::Cancelled => true,
            _ => false,
        }
    }
}

/// Every stored name of a state reads back as the value it was written for.
pub proof fn law_state_name_reads_back(state: ExportState)
    ensures
        state_of(state_name(state)) == Some(state),
{
    reveal_strlit("queued");
    reveal_strlit("running");
    reveal_strlit("succeeded");
    reveal_strlit("failed");
    reveal_strlit("cancelled");
    assert("queued"@[0] == 'q' && "running"@[0] == 'r' && "succeeded"@[0] == 's' && "failed"@[0]
        == 'f' && "cancelled"@[0] == 'c');
}

/// An attempt to render an Export.
#[derive(Clone, Debug, PartialEq, Eq)]
pub struct ExportAttempt {
    pub incarnation: String,
    pub sequence: u64,
}

/// What is known of a published artifact.
#[derive(Clone, Debug, PartialEq, Eq)]
pub struct ExportArtifactFacts {
    pub size: u64,
    pub sha256: String,
    pub expires_at: u64,
    pub width: u32,
    pub height: u32,
    pub profile_identity: String,
}

/// The verified source bytes of an Export.
#[derive(Clone, Debug, PartialEq, Eq)]
pub struct ExportSourceEvidence {
    pub size: u64,
    pub sha256: String,
}

/// What an Export was accepted with.
#[derive(Clone, Debug, PartialEq, Eq)]
pub struct ExportSnapshot {
    pub photo_id: String,
    pub recipe_revision: String,
    pub settings: EditRecipeSettings,
    pub source_revision: String,
    pub source_kind: OriginalKind,
    pub source_profile_id: String,
    pub policy_id: String,
    pub bundle_id: String,
    pub workload: &'static str,
    pub recipe_digest: String,
}

/// An Export.
#[derive(Clone, Debug, PartialEq, Eq)]
pub struct ExportRecord {
    pub id: String,
    pub snapshot: ExportSnapshot,
    pub source: Option<ExportSourceEvidence>,
    pub state: ExportState,
    pub outcome: Option<String>,
    pub attempt: Option<ExportAttempt>,
    pub artifact: Option<ExportArtifactFacts>,
    pub created_at: u64,
    pub settled_at: Option<u64>,
    pub retain_until: Option<u64>,
}

/// The row of an Export.
#[derive(Clone, Debug, PartialEq, Eq)]
pub struct ExportRow {
    pub id: String,
    pub photo_id: String,
    pub state: ExportState,
    pub outcome: Option<String>,
    pub recipe_revision: String,
    pub exposure_ev: Real,
    pub source_revision: String,
    pub source_profile_id: String,
    pub source_size: Option<u64>,
    pub source_sha256: Option<String>,
    pub recipe_digest: String,
    pub policy_id: String,
    pub bundle_id: String,
    pub attempt_incarnation: Option<String>,
    pub attempt_sequence: Option<u64>,
    pub artifact_size: Option<u64>,
    pub artifact_sha256: Option<String>,
    pub artifact_expires_at: Option<u64>,
    pub artifact_width: Option<u32>,
    pub artifact_height: Option<u32>,
    pub artifact_profile_identity: Option<String>,
    pub created_at: u64,
    pub settled_at: Option<u64>,
    pub retain_until: Option<u64>,
}

/// A copy of a row.
pub fn clone_export_row(row: &ExportRow) -> (copy: ExportRow)
    ensures
        copy == *row,
{
    ExportRow {
        id: row.id.clone(),
        photo_id: row.photo_id.clone(),
        state: row.state,
        outcome: clone_opt_text(&row.outcome),
        recipe_revision: row.recipe_revision.clone(),
        exposure_ev: row.exposure_ev,
        source_revision: row.source_revision.clone(),
        source_profile_id: row.source_profile_id.clone(),
        source_size: row.source_size,
        source_sha256: clone_opt_text(&row.source_sha256),
        recipe_digest: row.recipe_digest.clone(),
        policy_id: row.policy_id.clone(),
        bundle_id: row.bundle_id.clone(),
        attempt_incarnation: clone_opt_text(&row.attempt_incarnation),
        attempt_sequence: row.attempt_sequence,
        artifact_size: row.artifact_size,
        artifact_sha256: clone_opt_text(&row.artifact_sha256),
        artifact_expires_at: row.artifact_expires_at,
        artifact_width: row.artifact_width,
        artifact_height: row.artifact_height,
        artifact_profile_identity: clone_opt_text(&row.artifact_profile_identity),
        created_at: row.created_at,
        settled_at: row.settled_at,
        retain_until: row.retain_until,
    }
}

/// The columns of an Export whose values are read as other types than they are
/// stored in.
#[derive(Clone, Debug, PartialEq, Eq)]
pub struct StoredExportNumbers {
    pub state: String,
    pub source_size: Option<i64>,
    pub attempt_sequence: Option<i64>,
    pub artifact_size: Option<i64>,
    pub artifact_expires_at: Option<i64>,
    pub artifact_width: Option<i64>,
    pub artifact_height: Option<i64>,
    pub created_at: i64,
    pub settled_at: Option<i64>,
    pub retain_until: Option<i64>,
}

/// The same columns as they are read.
#[derive(Clone, Copy, Debug, PartialEq, Eq)]
pub struct ExportNumbers {
    pub state: ExportState,
    pub source_size: Option<u64>,
    pub attempt_sequence: Option<u64>,
    pub artifact_size: Option<u64>,
    pub artifact_expires_at: Option<u64>,
    pub artifact_width: Option<u32>,
    pub artifact_height: Option<u32>,
    pub created_at: u64,
    pub settled_at: Option<u64>,
    pub retain_until: Option<u64>,
}

/// Whether an optional number is in range.
pub open spec fn in_range(value: Option<i64>, maximum: int) -> bool {
    value is Some ==> 0 <= value->0 <= maximum
}

/// An optional number of 64 bits without its sign.
pub open spec fn unsigned(value: Option<i64>) -> Option<u64> {
    match value {
        Some(n) => Some(n as u64),
        None => None,
    }
}

/// An optional number of 32 bits without its sign.
pub open spec fn short_unsigned(value: Option<i64>) -> Option<u32> {
    match value {
        Some(n) => Some(n as u32),
        None => None,
    }
}

fn read_unsigned(value: Option<i64>) -> (read: Option<Option<u64>>)
    ensures
        read == (if in_range(value, i64::MAX as int) {
            Some(unsigned(value))
        } else {
            None
        }),
{
    match value {
        Some(n) => if n >= 0 {
            Some(Some(n as u64))
        } else {
            None
        },
        None => Some(None),
    }
}

fn read_short_unsigned(value: Option<i64>) -> (read: Option<Option<u32>>)
    ensures
        read == (if in_range(value, u32::MAX as int) {
            Some(short_unsigned(value))
        } else {
            None
        }),
{
    match value {
        Some(n) => if n >= 0 && n <= u32::MAX as i64 {
            Some(Some(n as u32))
        } else {
            None
        },
        None => Some(None),
    }
}

/// Whether the columns of an Export can be read.
pub open spec fn export_readable(stored: StoredExportNumbers) -> bool {
    &&& state_of(stored.state@) is Some
    &&& in_range(stored.source_size, i64::MAX as int)
    &&& in_range(stored.attempt_sequence, i64::MAX as int)
    &&& in_range(stored.artifact_size, i64::MAX as int)
    &&& in_range(stored.artifact_expires_at, i64::MAX as int)
    &&& in_range(stored.artifact_width, u32::MAX as int)
    &&& in_range(stored.artifact_height, u32::MAX as int)
    &&& stored.created_at >= 0
    &&& in_range(stored.settled_at, i64::MAX as int)
    &&& in_range(stored.retain_until, i64::MAX as int)
}

/// The numbers of an Export as stored, if they can be read.
pub open spec fn export_numbers(stored: StoredExportNumbers) -> Option<ExportNumbers> {
    if export_readable(stored) {
        Some(
            ExportNumbers {
                state: state_of(stored.state@)->0,
                source_size: unsigned(stored.source_size),
                attempt_sequence: unsigned(stored.attempt_sequence),
                artifact_size: unsigned(stored.artifact_size),
                artifact_expires_at: unsigned(stored.artifact_expires_at),
                artifact_width: short_unsigned(stored.artifact_width),
                artifact_height: short_unsigned(stored.artifact_height),
                created_at: stored.created_at as u64,
                settled_at: unsigned(stored.settled_at),
                retain_until: unsigned(stored.retain_until),
            },
        )
    } else {
        None
    }
}

/// Reads the columns of an Export, none if one of them cannot be read.
pub fn export_row(stored: &StoredExportNumbers) -> (numbers: Option<ExportNumbers>)
    ensures
        numbers == export_numbers(*stored),
{
    if stored.created_at < 0 {
        return None;
    }
    match (
        ExportState::parse_name(&stored.state),
        read_unsigned(stored.source_size),
        read_unsigned(stored.attempt_sequence),
        read_unsigned(stored.artifact_size),
        read_unsigned(stored.artifact_expires_at),
    ) {
        (
            Some(state),
            Some(source_size),
            Some(attempt_sequence),
            Some(artifact_size),
            Some(artifact_expires_at),
        ) => {
            match (
                read_short_unsigned(stored.artifact_width),
                read_short_unsigned(stored.artifact_height),
                read_unsigned(stored.settled_at),
                read_unsigned(stored.retain_until),
            ) {
                (
                    Some(artifact_width),
                    Some(artifact_height),
                    Some(settled_at),
                    Some(retain_until),
                ) => Some(
                    ExportNumbers {
                        state,
                        source_size,
                        attempt_sequence,
                        artifact_size,
                        artifact_expires_at,
                        artifact_width,
                        artifact_height,
                        created_at: stored.created_at as u64,
                        settled_at,
                        retain_until,
                    },
                ),
                _ => None,
            }
        },
        _ => None,
    }
}

/// Whether the artifact of a row is there as a whole.
pub open spec fn whole_artifact(row: ExportRow) -> bool {
    row.artifact_size is Some && row.artifact_sha256 is Some && row.artifact_expires_at is Some
        && row.artifact_width is Some && row.artifact_height is Some
        && row.artifact_profile_identity is Some
}

/// Whether a row has nothing of an artifact.
pub open spec fn no_artifact(row: ExportRow) -> bool {
    row.artifact_size is None && row.artifact_sha256 is None && row.artifact_expires_at is None
        && row.artifact_width is None && row.artifact_height is None
        && row.artifact_profile_identity is None
}

/// Whether the parts of a row hold together: an attempt, an artifact and source
/// evidence are whole or absent, and the digest of the recipe is the stored one.
pub open spec fn row_whole(row: ExportRow, digest: Option<Seq<char>>) -> bool {
    &&& row.attempt_incarnation is Some == row.attempt_sequence is Some
    &&& whole_artifact(row) || no_artifact(row)
    &&& row.source_size is Some == row.source_sha256 is Some
    &&& digest == Some(row.recipe_digest@)
}

/// The record that a whole row tells.
pub open spec fn record_of(row: ExportRow) -> ExportRecord {
    ExportRecord {
        id: row.id,
        snapshot: ExportSnapshot {
            photo_id: row.photo_id,
            recipe_revision: row.recipe_revision,
            settings: EditRecipeSettings {
                exposure_ev: row.exposure_ev,
                white_balance: WhiteBalanceIntent::AsShot,
            },
            source_revision: row.source_revision,
            source_kind: OriginalKind::Raw,
            source_profile_id: row.source_profile_id,
            policy_id: row.policy_id,
            bundle_id: row.bundle_id,
            workload: "development-tiff",
            recipe_digest: row.recipe_digest,
        },
        source: if row.source_size is Some {
            Some(
                ExportSourceEvidence { size: row.source_size->0, sha256: row.source_sha256->0 },
            )
        } else {
            None
        },
        state: row.state,
        outcome: row.outcome,
        attempt: if row.attempt_incarnation is Some {
            Some(
                ExportAttempt {
                    incarnation: row.attempt_incarnation->0,
                    sequence: row.attempt_sequence->0,
                },
            )
        } else {
            None
        },
        artifact: if row.artifact_size is Some {
            Some(
                ExportArtifactFacts {
                    size: row.artifact_size->0,
                    sha256: row.artifact_sha256->0,
                    expires_at: row.artifact_expires_at->0,
                    width: row.artifact_width->0,
                    height: row.artifact_height->0,
                    profile_identity: row.artifact_profile_identity->0,
                },
            )
        } else {
            None
        },
        created_at: row.created_at,
        settled_at: row.settled_at,
        retain_until: row.retain_until,
    }
}

/// An Export as stored, if it can be read.
pub open spec fn export_read(row: ExportRow, digest: Option<Seq<char>>) -> Result<
    ExportRecord,
    PersistenceError,
> {
    if row_whole(row, digest) {
        Ok::<ExportRecord, PersistenceError>(record_of(row))
    } else {
        Err::<ExportRecord, PersistenceError>(PersistenceError::Storage)
    }
}

/// Reads the record of a row. `digest` is that of the recipe that the row holds,
/// none where it cannot be computed. A partial attempt, artifact or source is
/// never told.
pub fn export_record_from_row(row: &ExportRow, digest: &Option<String>) -> (record: Result<
    ExportRecord,
    PersistenceError,
>)
    ensures
        record == export_read(*row, opt_text(*digest)),
{
    let attempt: Option<ExportAttempt> = match (&row.attempt_incarnation, row.attempt_sequence) {
        (Some(incarnation), Some(sequence)) => Some(
            ExportAttempt { incarnation: incarnation.clone(), sequence },
        ),
        (None, None) => None,
        _ => {
            return Err(PersistenceError::Storage);
        },
    };
    let source: Option<ExportSourceEvidence> = match (row.source_size, &row.source_sha256) {
        (Some(size), Some(sha256)) => Some(ExportSourceEvidence { size, sha256: sha256.clone() }),
        (None, None) => None,
        _ => {
            return Err(PersistenceError::Storage);
        },
    };
    let artifact: Option<ExportArtifactFacts> = match (
        row.artifact_size,
        &row.artifact_sha256,
        row.artifact_expires_at,
        row.artifact_width,
        row.artifact_height,
        &row.artifact_profile_identity,
    ) {
        (
            Some(size),
            Some(sha256),
            Some(expires_at),
            Some(width),
            Some(height),
            Some(profile_identity),
        ) => Some(
            ExportArtifactFacts {
                size,
                sha256: sha256.clone(),
                expires_at,
                width,
                height,
                profile_identity: profile_identity.clone(),
            },
        ),
        (None, None, None, None, None, None) => None,
        _ => {
            return Err(PersistenceError::Storage);
        },
    };
    let same_digest: bool = match digest {
        Some(digest) => same_text(digest, &row.recipe_digest),
        None => false,
    };
    if !same_digest {
        return Err(PersistenceError::Storage);
    }
    Ok(
        ExportRecord {
            id: row.id.clone(),
            snapshot: ExportSnapshot {
                photo_id: row.photo_id.clone(),
                recipe_revision: row.recipe_revision.clone(),
                settings: EditRecipeSettings {
                    exposure_ev: row.exposure_ev,
                    white_balance: WhiteBalanceIntent::AsShot,
                },
                source_revision: row.source_revision.clone(),
                source_kind: OriginalKind::Raw,
                source_profile_id: row.source_profile_id.clone(),
                policy_id: row.policy_id.clone(),
                bundle_id: row.bundle_id.clone(),
                workload: "development-tiff",
                recipe_digest: row.recipe_digest.clone(),
            },
            source,
            state: row.state,
            outcome: clone_opt_text(&row.outcome),
            attempt,
            artifact,
            created_at: row.created_at,
            settled_at: row.settled_at,
            retain_until: row.retain_until,
        },
    )
}

/// Whether a text may be the identity of a request for an Export.
pub fn validate_export_request_id(request_id: &String) -> (valid: bool)
    ensures
        valid == request_id_valid(request_id@, MAXIMUM_EXPORT_REQUEST_ID_BYTES),
{
    valid_request_id(request_id, MAXIMUM_EXPORT_REQUEST_ID_BYTES)
}

/// Seconds since the epoch; zero if the clock reads before it.
pub fn export_unix_seconds(elapsed: Option<u64>) -> (seconds: u64)
    ensures
        seconds == (match elapsed {
            Some(seconds) => seconds,
            None => 0,
        }),
{
    match elapsed {
        Some(seconds) => seconds,
        None => 0,
    }
}

/// The key that the claim to publish an Export is stored under.
pub fn export_publication_claim_key(export_id: &String) -> (key: String)
    ensures
        key@ == "export_publication:"@ + export_id@,
{
    let mut key: String = "export_publication:".to_owned();
    key.append(export_id.as_str());
    key
}

/// The key of the receipt of a request: the identities of requests are unique per
/// Photo.
pub open spec fn receipt_key(photo_id: Seq<char>, request_id: Seq<char>) -> Seq<char> {
    "export_receipt:"@ + photo_id + "\0"@ + request_id
}

/// The key that the receipt of a request is stored under.
pub fn export_receipt_key(photo_id: &String, request_id: &String) -> (key: String)
    ensures
        key@ == receipt_key(photo_id@, request_id@),
{
    let mut key: String = "export_receipt:".to_owned();
    key.append(photo_id.as_str());
    key.append("\0");
    key.append(request_id.as_str());
    key
}

/// The key of the mark that an Export is gone for good.
pub fn export_expiry_tombstone_key(export_id: &String) -> (key: String)
    ensures
        key@ == "export_expired:"@ + export_id@,
{
    let mut key: String = "export_expired:".to_owned();
    key.append(export_id.as_str());
    key
}

/// Different requests of different Photos have different keys, as long as the
/// identities of the requests hold no NUL, which valid ones do not.
pub proof fn law_receipt_keys_are_told_apart(
    photo_a: Seq<char>,
    request_a: Seq<char>,
    photo_b: Seq<char>,
    request_b: Seq<char>,
)
    requires
        receipt_key(photo_a, request_a) == receipt_key(photo_b, request_b),
        request_id_valid(request_a, MAXIMUM_EXPORT_REQUEST_ID_BYTES),
        request_id_valid(request_b, MAXIMUM_EXPORT_REQUEST_ID_BYTES),
    ensures
        photo_a == photo_b,
        request_a == request_b,
{
    reveal_strlit("\0");
    let head = "export_receipt:"@;
    let a = receipt_key(photo_a, request_a);
    let b = receipt_key(photo_b, request_b);
    let n = head.len() as int;
    let cut_a = n + photo_a.len();
    let cut_b = n + photo_b.len();
    assert("\0"@.len() == 1);
    assert(a.len() == cut_a + 1 + request_a.len());
    assert(b.len() == cut_b + 1 + request_b.len());
    assert(a[cut_a] == '\0');
    assert(b[cut_b] == '\0');
    if cut_a < cut_b {
        assert(a[cut_b] == request_a[cut_b - cut_a - 1]);
        assert(!crate::text::control(request_a[cut_b - cut_a - 1]));
    } else if cut_b < cut_a {
        assert(b[cut_a] == request_b[cut_a - cut_b - 1]);
        assert(!crate::text::control(request_b[cut_a - cut_b - 1]));
    }
    assert(a.subrange(n, cut_a) =~= photo_a);
    assert(b.subrange(n, cut_b) =~= photo_b);
    assert(a.skip(cut_a + 1) =~= request_a);
    assert(b.skip(cut_b + 1) =~= request_b);
}

/// The numbers of an Export are read as they are stored. A number below zero, a width or
/// height above thirty-two bits, and a state that is none are not read.
pub proof fn law_export_numbers_are_read_as_stored(stored: StoredExportNumbers)
    ensures
        ({
            let read = export_numbers(stored);
            let numbers = read->0;
            &&& stored.created_at < 0 ==> read is None
            &&& stored.settled_at matches Some(n) ==> (n < 0 ==> read is None)
            &&& stored.retain_until matches Some(n) ==> (n < 0 ==> read is None)
            &&& stored.source_size matches Some(n) ==> (n < 0 ==> read is None)
            &&& stored.attempt_sequence matches Some(n) ==> (n < 0 ==> read is None)
            &&& stored.artifact_size matches Some(n) ==> (n < 0 ==> read is None)
            &&& stored.artifact_expires_at matches Some(n) ==> (n < 0 ==> read is None)
            &&& stored.artifact_width matches Some(n) ==> (n < 0 || n > 4_294_967_295 ==> read
                is None)
            &&& stored.artifact_height matches Some(n) ==> (n < 0 || n > 4_294_967_295 ==> read
                is None)
            &&& read is Some ==> {
                &&& numbers.state == ExportState::Queued ==> stored.state@ == "queued"@
                &&& numbers.state == ExportState::Running ==> stored.state@ == "running"@
                &&& numbers.state == ExportState::Succeeded ==> stored.state@ == "succeeded"@
                &&& numbers.state == ExportState::Failed ==> stored.state@ == "failed"@
                &&& numbers.state == ExportState::Cancelled ==> stored.state@ == "cancelled"@
                &&& numbers.created_at == stored.created_at
                &&& numbers.source_size is Some == stored.source_size is Some
                &&& stored.source_size is Some ==> numbers.source_size->0 == stored.source_size->0
                &&& numbers.attempt_sequence is Some == stored.attempt_sequence is Some
                &&& stored.attempt_sequence is Some ==> numbers.attempt_sequence->0
                    == stored.attempt_sequence->0
                &&& numbers.artifact_size is Some == stored.artifact_size is Some
                &&& stored.artifact_size is Some ==> numbers.artifact_size->0
                    == stored.artifact_size->0
                &&& numbers.artifact_expires_at is Some == stored.artifact_expires_at is Some
                &&& stored.artifact_expires_at is Some ==> numbers.artifact_expires_at->0
                    == stored.artifact_expires_at->0
                &&& numbers.artifact_width is Some == stored.artifact_width is Some
                &&& stored.artifact_width is Some ==> numbers.artifact_width->0
                    == stored.artifact_width->0
                &&& numbers.artifact_height is Some == stored.artifact_height is Some
                &&& stored.artifact_height is Some ==> numbers.artifact_height->0
                    == stored.artifact_height->0
                &&& numbers.settled_at is Some == stored.settled_at is Some
                &&& stored.settled_at is Some ==> numbers.settled_at->0 == stored.settled_at->0
                &&& numbers.retain_until is Some == stored.retain_until is Some
                &&& stored.retain_until is Some ==> numbers.retain_until->0
                    == stored.retain_until->0
            }
        }),
{
}

/// An Export is read only where its digest is the one of its recipe, and its attempt, its
/// source and its artifact are each stored whole or not at all; what is read of it is
/// what is stored, field by field.
pub proof fn law_exports_are_read_as_stored(row: ExportRow, digest: Option<Seq<char>>)
    ensures
        ({
            let read = export_read(row, digest);
            let record = read->Ok_0;
            &&& digest is None || digest->0 != row.recipe_digest@ ==> read is Err
            &&& row.attempt_incarnation is Some != row.attempt_sequence is Some ==> read is Err
            &&& row.source_size is Some != row.source_sha256 is Some ==> read is Err
            &&& row.artifact_size is Some != row.artifact_sha256 is Some ==> read is Err
            &&& row.artifact_size is Some != row.artifact_expires_at is Some ==> read is Err
            &&& row.artifact_size is Some != row.artifact_width is Some ==> read is Err
            &&& row.artifact_size is Some != row.artifact_height is Some ==> read is Err
            &&& row.artifact_size is Some != row.artifact_profile_identity is Some ==> read is Err
            &&& read is Err ==> read->Err_0 == PersistenceError::Storage
            &&& read is Ok ==> {
                let shot = record.snapshot;
                &&& record.id@ == row.id@
                &&& shot.photo_id@ == row.photo_id@
                &&& shot.recipe_revision@ == row.recipe_revision@
                &&& shot.settings.exposure_ev == row.exposure_ev
                &&& shot.settings.white_balance == WhiteBalanceIntent::AsShot
                &&& shot.source_revision@ == row.source_revision@
                &&& shot.source_kind == OriginalKind::Raw
                &&& shot.source_profile_id@ == row.source_profile_id@
                &&& shot.policy_id@ == row.policy_id@
                &&& shot.bundle_id@ == row.bundle_id@
                &&& shot.workload@ == "development-tiff"@
                &&& shot.recipe_digest@ == row.recipe_digest@
                &&& record.state == row.state
                &&& record.outcome == row.outcome
                &&& record.created_at == row.created_at
                &&& record.settled_at == row.settled_at
                &&& record.retain_until == row.retain_until
                &&& record.source is Some == row.source_size is Some
                &&& record.source is Some ==> record.source->0.size == row.source_size->0
                    && record.source->0.sha256@ == row.source_sha256->0@
                &&& record.attempt is Some == row.attempt_incarnation is Some
                &&& record.attempt is Some ==> record.attempt->0.incarnation@
                    == row.attempt_incarnation->0@ && record.attempt->0.sequence
                    == row.attempt_sequence->0
                &&& record.artifact is Some == row.artifact_size is Some
                &&& record.artifact is Some ==> {
                    let artifact = record.artifact->0;
                    &&& artifact.size == row.artifact_size->0
                    &&& artifact.sha256@ == row.artifact_sha256->0@
                    &&& artifact.expires_at == row.artifact_expires_at->0
                    &&& artifact.width == row.artifact_width->0
                    &&& artifact.height == row.artifact_height->0
                    &&& artifact.profile_identity@ == row.artifact_profile_identity->0@
                }
            }
            &&& digest == Some(row.recipe_digest@) && row.attempt_incarnation is Some
                == row.attempt_sequence is Some && row.source_size is Some == row.source_sha256
                is Some && row.artifact_size is None && row.artifact_sha256 is None
                && row.artifact_expires_at is None && row.artifact_width is None
                && row.artifact_height is None && row.artifact_profile_identity is None ==> read
                is Ok
            &&& digest == Some(row.recipe_digest@) && row.attempt_incarnation is Some
                == row.attempt_sequence is Some && row.source_size is Some == row.source_sha256
                is Some && row.artifact_size is Some && row.artifact_sha256 is Some
                && row.artifact_expires_at is Some && row.artifact_width is Some
                && row.artifact_height is Some && row.artifact_profile_identity is Some ==> read
                is Ok
        }),
{
}

/// The claim of a publication and the trace of an expired Export are kept under names of
/// their own: no two Exports share one, and a clock that cannot be read tells the epoch.
pub proof fn law_exports_keep_names_of_their_own(
    left: String,
    right: String,
    claim: String,
    other_claim: String,
    tombstone: String,
    other_tombstone: String,
    elapsed: Option<u64>,
    seconds: u64,
)
    requires
        call_ensures(export_publication_claim_key, (&left,), claim),
        call_ensures(export_publication_claim_key, (&right,), other_claim),
        call_ensures(export_expiry_tombstone_key, (&left,), tombstone),
        call_ensures(export_expiry_tombstone_key, (&right,), other_tombstone),
        call_ensures(export_unix_seconds, (elapsed,), seconds),
    ensures
        claim@ == other_claim@ <==> left@ == right@,
        tombstone@ == other_tombstone@ <==> left@ == right@,
        claim@ != other_tombstone@,
        elapsed is Some ==> seconds == elapsed->0,
        elapsed is None ==> seconds == 0,
{
    reveal_strlit("export_publication:");
    reveal_strlit("export_expired:");
    let prefix = "export_publication:"@;
    let mark = "export_expired:"@;
    if claim@ == other_claim@ {
        assert(left@ =~= claim@.skip(prefix.len() as int));
        assert(right@ =~= other_claim@.skip(prefix.len() as int));
    }
    if tombstone@ == other_tombstone@ {
        assert(left@ =~= tombstone@.skip(mark.len() as int));
        assert(right@ =~= other_tombstone@.skip(mark.len() as int));
    }
    assert(claim@[7] == prefix[7]);
    assert(other_tombstone@[7] == mark[7]);
}

} // verus!
