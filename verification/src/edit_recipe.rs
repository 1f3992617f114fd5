//! Edit recipes: how a Photo is to be developed, saved under the version of the
//! recipe and of the source that the Photographer saw, and answered again the
//! same way when a request is repeated.
use crate::binary::{finite, same_real, Real};
use crate::codec::{kind_of, law_kinds_are_stored_by_name, parse_kind, OriginalKind};
use crate::error::PersistenceError;
use crate::json::{
    digest_text, json_opt_text, json_text, law_json_opt_texts_are_told_apart,
    law_json_texts_are_told_apart, text_digest, write_json_opt_text, write_json_text,
};
use crate::numeral::{
    decimal, is_digit, law_decimal_reads_back, law_signed_decimal_reads_back, signed_decimal,
    signed_decimal_text,
};
use crate::text::{
    control, is_control, is_text, length_before_nul, opt_text, same_text, stored_length,
};
use vstd::prelude::*;
use vstd::string::*;
use vstd::utf8::encode_utf8;

verus! {

/// The longest identity of a request, in bytes.
pub const MAXIMUM_EDIT_RECIPE_REQUEST_ID_BYTES: usize = 128;

/// The white balance that a Photographer wants.
#[derive(Clone, Copy, Debug, PartialEq, Eq, Structural)]
pub enum WhiteBalanceIntent {
    AsShot,
    TemperatureTint { temperature_kelvin: i32, tint_milli: i32 },
}

/// Whether the values of an intent are in the published bounds.
pub open spec fn intent_in_bounds(intent: WhiteBalanceIntent) -> bool {
    match intent {
        WhiteBalanceIntent::AsShot => true,
        WhiteBalanceIntent::TemperatureTint { temperature_kelvin, tint_milli } => 1000
            <= temperature_kelvin <= 40000 && -150000 <= tint_milli <= 150000,
    }
}

/// The stored name of an intent.
pub open spec fn intent_name(intent: WhiteBalanceIntent) -> Seq<char> {
    match intent {
        WhiteBalanceIntent::AsShot => "as-shot"@,
        WhiteBalanceIntent::TemperatureTint { .. } => "temperature-tint"@,
    }
}

/// The stored values of an intent.
pub open spec fn intent_values(intent: WhiteBalanceIntent) -> (Option<i32>, Option<i32>) {
    match intent {
        WhiteBalanceIntent::AsShot => (None, None),
        WhiteBalanceIntent::TemperatureTint { temperature_kelvin, tint_milli } => (
            Some(temperature_kelvin),
            Some(tint_milli),
        ),
    }
}

/// The intent that a stored name and stored values stand for.
pub open spec fn intent_of(
    mode: Seq<char>,
    temperature_kelvin: Option<i32>,
    tint_milli: Option<i32>,
) -> Option<WhiteBalanceIntent> {
    if mode == "as-shot"@ && temperature_kelvin is None && tint_milli is None {
        Some(WhiteBalanceIntent::AsShot)
    } else if mode == "temperature-tint"@ && temperature_kelvin is Some && tint_milli is Some {
        let intent = WhiteBalanceIntent::TemperatureTint {
            temperature_kelvin: temperature_kelvin->0,
            tint_milli: tint_milli->0,
        };
        if intent_in_bounds(intent) {
            Some(intent)
        } else {
            None
        }
    } else {
        None
    }
}

impl WhiteBalanceIntent {
    /// Whether the values of the intent are in the published bounds.
    pub fn within_payload_bounds(self) -> (answer: bool)
        ensures
            answer == intent_in_bounds(self),
    {
        match self {
            WhiteBalanceIntent::AsShot => true,
            WhiteBalanceIntent::TemperatureTint { temperature_kelvin, tint_milli } => 1000
                <= temperature_kelvin && temperature_kelvin <= 40000 && -150000 <= tint_milli
                && tint_milli <= 150000,
        }
    }
}

/// The stored name of an intent.
pub fn white_balance_intent_name(intent: WhiteBalanceIntent) -> (name: &'static str)
    ensures
        name@ == intent_name(intent),
{
    match intent {
        WhiteBalanceIntent::AsShot => "as-shot",
        WhiteBalanceIntent::TemperatureTint { .. } => "temperature-tint",
    }
}

/// The stored values of an intent.
pub fn white_balance_intent_values(intent: WhiteBalanceIntent) -> (values: (
    Option<i32>,
    Option<i32>,
))
    ensures
        values == intent_values(intent),
{
    match intent {
        WhiteBalanceIntent::AsShot => (None, None),
        WhiteBalanceIntent::TemperatureTint { temperature_kelvin, tint_milli } => (
            Some(temperature_kelvin),
            Some(tint_milli),
        ),
    }
}

/// Reads an intent from its stored name and values.
pub fn parse_white_balance_intent(
    mode: &String,
    temperature_kelvin: Option<i32>,
    tint_milli: Option<i32>,
) -> (intent: Option<WhiteBalanceIntent>)
    ensures
        intent == intent_of(mode@, temperature_kelvin, tint_milli),
{
    proof {
        reveal_strlit("as-shot");
        reveal_strlit("temperature-tint");
        assert("as-shot"@.len() != "temperature-tint"@.len());
    }
    if is_text(mode, "as-shot") {
        if temperature_kelvin.is_none() && tint_milli.is_none() {
            Some(WhiteBalanceIntent::AsShot)
        } else {
            None
        }
    } else if is_text(mode, "temperature-tint") {
        match (temperature_kelvin, tint_milli) {
            (Some(temperature_kelvin), Some(tint_milli)) => {
                let intent: WhiteBalanceIntent = WhiteBalanceIntent::TemperatureTint {
                    temperature_kelvin,
                    tint_milli,
                };
                if intent.within_payload_bounds() {
                    Some(intent)
                } else {
                    None
                }
            },
            _ => None,
        }
    } else {
        None
    }
}

/// Every intent in the bounds reads back from its stored name and values.
pub proof fn law_intents_read_back(intent: WhiteBalanceIntent)
    requires
        intent_in_bounds(intent),
    ensures
        intent_of(intent_name(intent), intent_values(intent).0, intent_values(intent).1) == Some(
            intent,
        ),
{
    reveal_strlit("as-shot");
    reveal_strlit("temperature-tint");
    assert("as-shot"@.len() != "temperature-tint"@.len());
}

/// How a Photo is to be developed.
#[derive(Clone, Copy, Debug, PartialEq, Eq, Structural)]
pub struct EditRecipeSettings {
    pub exposure_ev: Real,
    pub white_balance: WhiteBalanceIntent,
}

/// Whether two settings are the same.
pub open spec fn same_settings(left: EditRecipeSettings, right: EditRecipeSettings) -> bool {
    same_real(left.exposure_ev, right.exposure_ev) && left.white_balance == right.white_balance
}

/// A saved recipe.
#[derive(Clone, Debug, PartialEq, Eq)]
pub struct EditRecipe {
    pub photo_id: String,
    pub revision: String,
    pub source_revision: String,
    pub settings: EditRecipeSettings,
}

/// The recipe of a Photo, if any, the current revision of its source, and whether
/// that can be read.
#[derive(Clone, Debug, PartialEq, Eq)]
pub struct EditRecipeRead {
    pub recipe: Option<EditRecipe>,
    pub current_source_revision: String,
    pub source_available: bool,
}

/// A copy of a recipe.
pub fn clone_recipe(recipe: &EditRecipe) -> (copy: EditRecipe)
    ensures
        copy == *recipe,
{
    EditRecipe {
        photo_id: recipe.photo_id.clone(),
        revision: recipe.revision.clone(),
        source_revision: recipe.source_revision.clone(),
        settings: recipe.settings,
    }
}

/// A copy of what was read of a recipe.
pub fn clone_recipe_read(read: &EditRecipeRead) -> (copy: EditRecipeRead)
    ensures
        copy == *read,
{
    EditRecipeRead {
        recipe: match &read.recipe {
            Some(recipe) => Some(clone_recipe(recipe)),
            None => None,
        },
        current_source_revision: read.current_source_revision.clone(),
        source_available: read.source_available,
    }
}

/// A request to save a recipe.
#[derive(Clone, Debug, PartialEq, Eq)]
pub struct SaveEditRecipe {
    pub photo_id: String,
    pub request_id: String,
    pub expected_recipe_version: Option<String>,
    pub expected_source_revision: String,
    pub settings: EditRecipeSettings,
}

/// A request to bind a saved recipe to the current revision of its source.
#[derive(Clone, Debug, PartialEq, Eq)]
pub struct RebindEditRecipe {
    pub photo_id: String,
    pub request_id: String,
    pub expected_recipe_version: String,
    pub new_source_revision: String,
}

/// What a request to write a recipe is answered.
#[derive(Clone, Debug, PartialEq, Eq)]
pub enum EditRecipeWriteOutcome {
    Saved(EditRecipe),
    Replayed(EditRecipe),
    Unchanged(EditRecipe),
    Conflict(EditRecipeRead),
    SourceChanged(EditRecipeRead),
    RequiresRebind(EditRecipeRead),
    RequestConflict,
    InvalidSettings,
    MissingPhoto,
    MissingRecipe,
    UnsupportedPhoto,
    Unavailable,
}

/// Whether a request wrote a recipe or found it as wanted.
#[derive(Clone, Copy, Debug, PartialEq, Eq, Structural)]
pub enum EditRecipeReceiptOutcome {
    Saved,
    Unchanged,
}

/// What is kept of a request, to answer it the same way again.
#[derive(Clone, Debug, PartialEq, Eq)]
pub struct EditRecipeReceipt {
    pub photo_id: String,
    pub payload_digest: String,
    pub outcome: EditRecipeReceiptOutcome,
    pub revision: String,
    pub source_revision: String,
    pub exposure_ev: Real,
    pub white_balance_mode: String,
    pub temperature_kelvin: Option<i32>,
    pub tint_milli: Option<i32>,
}

/// The columns of a Photo, its Original File and its recipe. `current_revision`
/// is the revision of the Original File, none where it cannot be told.
#[derive(Clone, Debug, PartialEq, Eq)]
pub struct StoredRecipe {
    pub size: i64,
    pub original_available: i64,
    pub photo_available: i64,
    pub revision: Option<String>,
    pub source_revision: Option<String>,
    pub exposure_ev: Option<Real>,
    pub white_balance_mode: Option<String>,
    pub temperature_kelvin: Option<i32>,
    pub tint_milli: Option<i32>,
    pub current_revision: Option<String>,
}

/// Whether a Photo has no recipe.
pub open spec fn no_recipe(row: StoredRecipe) -> bool {
    row.revision is None && row.source_revision is None && row.exposure_ev is None
        && row.white_balance_mode is None
}

/// Whether a Photo has a recipe that can be read.
pub open spec fn whole_recipe(row: StoredRecipe) -> bool {
    row.revision is Some && row.source_revision is Some && row.exposure_ev is Some
        && row.white_balance_mode is Some && intent_of(
        row.white_balance_mode->0@,
        row.temperature_kelvin,
        row.tint_milli,
    ) is Some
}

/// What the columns tell of the recipe of a Photo.
pub open spec fn recipe_told(row: StoredRecipe, photo_id: String) -> Option<EditRecipeRead> {
    if row.size < 0 || !(no_recipe(row) || whole_recipe(row)) || row.current_revision is None {
        None
    } else {
        Some(
            EditRecipeRead {
                recipe: if no_recipe(row) {
                    None
                } else {
                    Some(
                        EditRecipe {
                            photo_id,
                            revision: row.revision->0,
                            source_revision: row.source_revision->0,
                            settings: EditRecipeSettings {
                                exposure_ev: row.exposure_ev->0,
                                white_balance: intent_of(
                                    row.white_balance_mode->0@,
                                    row.temperature_kelvin,
                                    row.tint_milli,
                                )->0,
                            },
                        },
                    )
                },
                current_source_revision: row.current_revision->0,
                source_available: row.original_available != 0 && row.photo_available != 0,
            },
        )
    }
}

/// Reads the recipe of a Photo: none if there is no such Photo.
pub fn read_edit_recipe(row: &Option<StoredRecipe>, photo_id: &String) -> (read: Result<
    Option<EditRecipeRead>,
    PersistenceError,
>)
    ensures
        read == (match *row {
            None => Ok::<Option<EditRecipeRead>, PersistenceError>(None),
            Some(row) => match recipe_told(row, *photo_id) {
                Some(told) => Ok::<Option<EditRecipeRead>, PersistenceError>(Some(told)),
                None => Err::<Option<EditRecipeRead>, PersistenceError>(PersistenceError::Storage),
            },
        }),
{
    let row: &StoredRecipe = match row {
        Some(row) => row,
        None => {
            return Ok(None);
        },
    };
    if row.size < 0 {
        return Err(PersistenceError::Storage);
    }
    let recipe: Option<EditRecipe> = match (
        &row.revision,
        &row.source_revision,
        row.exposure_ev,
        &row.white_balance_mode,
    ) {
        (None, None, None, None) => None,
        (Some(revision), Some(source_revision), Some(exposure_ev), Some(mode)) => {
            match parse_white_balance_intent(mode, row.temperature_kelvin, row.tint_milli) {
                Some(white_balance) => Some(
                    EditRecipe {
                        photo_id: photo_id.clone(),
                        revision: revision.clone(),
                        source_revision: source_revision.clone(),
                        settings: EditRecipeSettings { exposure_ev, white_balance },
                    },
                ),
                None => {
                    return Err(PersistenceError::Storage);
                },
            }
        },
        _ => {
            return Err(PersistenceError::Storage);
        },
    };
    match &row.current_revision {
        Some(current) => Ok(
            Some(
                EditRecipeRead {
                    recipe,
                    current_source_revision: current.clone(),
                    source_available: row.original_available != 0 && row.photo_available != 0,
                },
            ),
        ),
        None => Err(PersistenceError::Storage),
    }
}

/// Whether a text may be the identity of a request: it is not empty, not longer
/// than the given number of bytes, and holds no control character.
pub open spec fn request_id_valid(id: Seq<char>, maximum: usize) -> bool {
    id.len() > 0 && encode_utf8(id).len() <= maximum && forall|i: int|
        0 <= i < id.len() ==> !control(#[trigger] id[i])
}

/// Whether a text may be the identity of a request of at most so many bytes.
pub fn valid_request_id(id: &String, maximum: usize) -> (valid: bool)
    ensures
        valid == request_id_valid(id@, maximum),
{
    let count: usize = id.as_str().unicode_len();
    if count == 0 || id.as_str().as_bytes().len() > maximum {
        return false;
    }
    let mut i: usize = 0;
    while i < count
        invariant
            i <= count,
            count == id@.len(),
            forall|j: int| 0 <= j < i ==> !control(#[trigger] id@[j]),
        decreases count - i,
    {
        if is_control(id.as_str().get_char(i)) {
            assert(control(id@[i as int]));
            return false;
        }
        i = i + 1;
    }
    true
}

/// Whether a text may be the identity of a request to write a recipe.
pub fn validate_edit_recipe_request_id(request_id: &String) -> (valid: bool)
    ensures
        valid == request_id_valid(request_id@, MAXIMUM_EDIT_RECIPE_REQUEST_ID_BYTES),
{
    valid_request_id(request_id, MAXIMUM_EDIT_RECIPE_REQUEST_ID_BYTES)
}

/// The key that the receipt of a request is stored under.
pub fn edit_recipe_receipt_key(request_id: &String) -> (key: String)
    ensures
        key@ == "edit_recipe_receipt:"@ + request_id@,
{
    let mut key: String = "edit_recipe_receipt:".to_owned();
    key.append(request_id.as_str());
    key
}

/// An intent in the text that a digest is computed of.
pub open spec fn intent_json(intent: WhiteBalanceIntent) -> Seq<char> {
    match intent {
        WhiteBalanceIntent::AsShot => "\"as-shot\""@,
        WhiteBalanceIntent::TemperatureTint {
            temperature_kelvin,
            tint_milli,
        } => "{\"mode\":\"temperature-tint\",\"temperature_kelvin\":"@ + signed_decimal(
            temperature_kelvin as int,
        ) + ",\"tint_milli\":"@ + signed_decimal(tint_milli as int) + "}"@,
    }
}

/// The text that the digest of a request to save a recipe is computed of. Its
/// keys are those of every receipt that was ever written.
pub open spec fn save_payload(mutation: SaveEditRecipe, exposure: Seq<char>) -> Seq<char> {
    "{\"expected_recipe_revision\":"@ + json_opt_text(opt_text(mutation.expected_recipe_version))
        + ",\"expected_source_revision\":"@ + json_text(mutation.expected_source_revision@)
        + ",\"exposure_ev\":"@ + exposure + ",\"photo_id\":"@ + json_text(mutation.photo_id@)
        + ",\"white_balance\":"@ + intent_json(mutation.settings.white_balance) + "}"@
}

/// Computes the digest of a request to save a recipe. `exposure` is the exposure
/// of the request as a JSON number.
pub fn edit_recipe_payload_digest(mutation: &SaveEditRecipe, exposure: &String) -> (digest: String)
    ensures
        digest@ == text_digest(save_payload(*mutation, exposure@)),
{
    let mut text: String = "{\"expected_recipe_revision\":".to_owned();
    text.append(write_json_opt_text(&mutation.expected_recipe_version).as_str());
    text.append(",\"expected_source_revision\":");
    text.append(write_json_text(&mutation.expected_source_revision).as_str());
    text.append(",\"exposure_ev\":");
    text.append(exposure.as_str());
    text.append(",\"photo_id\":");
    text.append(write_json_text(&mutation.photo_id).as_str());
    text.append(",\"white_balance\":");
    let ghost before = text@;
    match mutation.settings.white_balance {
        WhiteBalanceIntent::AsShot => {
            text.append("\"as-shot\"");
        },
        WhiteBalanceIntent::TemperatureTint { temperature_kelvin, tint_milli } => {
            text.append("{\"mode\":\"temperature-tint\",\"temperature_kelvin\":");
            text.append(signed_decimal_text(temperature_kelvin as i64).as_str());
            text.append(",\"tint_milli\":");
            text.append(signed_decimal_text(tint_milli as i64).as_str());
            text.append("}");
        },
    }
    assert(text@ =~= before + intent_json(mutation.settings.white_balance));
    text.append("}");
    digest_text(&text)
}

/// The text that the digest of a request to rebind a recipe is computed of.
pub open spec fn rebind_payload(mutation: RebindEditRecipe) -> Seq<char> {
    "{\"expected_recipe_version\":"@ + json_text(mutation.expected_recipe_version@)
        + ",\"kind\":\"rebind\",\"new_source_revision\":"@ + json_text(
        mutation.new_source_revision@,
    ) + ",\"photo_id\":"@ + json_text(mutation.photo_id@) + "}"@
}

/// Computes the digest of a request to rebind a recipe.
pub fn edit_recipe_rebind_payload_digest(mutation: &RebindEditRecipe) -> (digest: String)
    ensures
        digest@ == text_digest(rebind_payload(*mutation)),
{
    let mut text: String = "{\"expected_recipe_version\":".to_owned();
    text.append(write_json_text(&mutation.expected_recipe_version).as_str());
    text.append(",\"kind\":\"rebind\",\"new_source_revision\":");
    text.append(write_json_text(&mutation.new_source_revision).as_str());
    text.append(",\"photo_id\":");
    text.append(write_json_text(&mutation.photo_id).as_str());
    text.append("}");
    digest_text(&text)
}

/// The recipe that a receipt tells, none if it cannot be read.
pub open spec fn receipt_told(receipt: EditRecipeReceipt) -> Option<EditRecipe> {
    match intent_of(
        receipt.white_balance_mode@,
        receipt.temperature_kelvin,
        receipt.tint_milli,
    ) {
        Some(white_balance) => Some(
            EditRecipe {
                photo_id: receipt.photo_id,
                revision: receipt.revision,
                source_revision: receipt.source_revision,
                settings: EditRecipeSettings { exposure_ev: receipt.exposure_ev, white_balance },
            },
        ),
        None => None,
    }
}

/// Reads the recipe that a receipt tells.
pub fn receipt_recipe(receipt: &EditRecipeReceipt) -> (recipe: Result<EditRecipe, PersistenceError>)
    ensures
        recipe == (match receipt_told(*receipt) {
            Some(told) => Ok::<EditRecipe, PersistenceError>(told),
            None => Err::<EditRecipe, PersistenceError>(PersistenceError::Storage),
        }),
{
    match parse_white_balance_intent(
        &receipt.white_balance_mode,
        receipt.temperature_kelvin,
        receipt.tint_milli,
    ) {
        Some(white_balance) => Ok(
            EditRecipe {
                photo_id: receipt.photo_id.clone(),
                revision: receipt.revision.clone(),
                source_revision: receipt.source_revision.clone(),
                settings: EditRecipeSettings { exposure_ev: receipt.exposure_ev, white_balance },
            },
        ),
        None => Err(PersistenceError::Storage),
    }
}

/// Whether a receipt is that of a recipe under a digest.
pub open spec fn receipt_for(
    receipt: EditRecipeReceipt,
    recipe: EditRecipe,
    digest: Seq<char>,
    outcome: EditRecipeReceiptOutcome,
) -> bool {
    &&& receipt.photo_id == recipe.photo_id
    &&& receipt.payload_digest@ == digest
    &&& receipt.outcome == outcome
    &&& receipt.revision == recipe.revision
    &&& receipt.source_revision == recipe.source_revision
    &&& receipt.exposure_ev == recipe.settings.exposure_ev
    &&& receipt.white_balance_mode@ == intent_name(recipe.settings.white_balance)
    &&& (receipt.temperature_kelvin, receipt.tint_milli) == intent_values(
        recipe.settings.white_balance,
    )
}

fn make_receipt(
    recipe: &EditRecipe,
    digest: &String,
    outcome: EditRecipeReceiptOutcome,
) -> (receipt: EditRecipeReceipt)
    ensures
        receipt_for(receipt, *recipe, digest@, outcome),
{
    let (temperature_kelvin, tint_milli) = white_balance_intent_values(
        recipe.settings.white_balance,
    );
    EditRecipeReceipt {
        photo_id: recipe.photo_id.clone(),
        payload_digest: digest.clone(),
        outcome,
        revision: recipe.revision.clone(),
        source_revision: recipe.source_revision.clone(),
        exposure_ev: recipe.settings.exposure_ev,
        white_balance_mode: white_balance_intent_name(recipe.settings.white_balance).to_owned(),
        temperature_kelvin,
        tint_milli,
    }
}

/// What is read for a request to write a recipe: the receipt of an earlier
/// request with its identity, the recipe of the Photo, and the kind of its source
/// with whether it can be read.
#[derive(Clone, Debug, PartialEq, Eq)]
pub struct RecipeFacts {
    pub receipt: Option<EditRecipeReceipt>,
    pub current: Option<EditRecipeRead>,
    pub source: Option<(OriginalKind, bool)>,
}

/// What a request to write a recipe is answered, and what is stored for it.
#[derive(Clone, Debug, PartialEq, Eq)]
pub struct EditRecipeChange {
    pub outcome: EditRecipeWriteOutcome,
    pub recipe: Option<EditRecipe>,
    pub receipt: Option<EditRecipeReceipt>,
}

/// The answer to a request whose identity has a receipt already: the same again
/// for the same payload, else a conflict.
pub open spec fn replayed(
    receipt: EditRecipeReceipt,
    photo_id: Seq<char>,
    digest: Seq<char>,
) -> Result<EditRecipeWriteOutcome, PersistenceError> {
    if receipt.photo_id@ != photo_id || receipt.payload_digest@ != digest {
        Ok(EditRecipeWriteOutcome::RequestConflict)
    } else {
        match receipt_told(receipt) {
            None => Err(PersistenceError::Storage),
            Some(recipe) => Ok(
                match receipt.outcome {
                    EditRecipeReceiptOutcome::Saved => EditRecipeWriteOutcome::Replayed(recipe),
                    EditRecipeReceiptOutcome::Unchanged => EditRecipeWriteOutcome::Unchanged(
                        recipe,
                    ),
                },
            ),
        }
    }
}

fn replay(receipt: &EditRecipeReceipt, photo_id: &String, digest: &String) -> (answer: Result<
    EditRecipeChange,
    PersistenceError,
>)
    ensures
        answer == (match replayed(*receipt, photo_id@, digest@) {
            Ok(outcome) => Ok::<EditRecipeChange, PersistenceError>(
                EditRecipeChange { outcome, recipe: None, receipt: None },
            ),
            Err(error) => Err::<EditRecipeChange, PersistenceError>(error),
        }),
{
    if !same_text(&receipt.photo_id, photo_id) || !same_text(&receipt.payload_digest, digest) {
        return Ok(answer_only(EditRecipeWriteOutcome::RequestConflict));
    }
    match receipt_recipe(receipt) {
        Ok(recipe) => Ok(
            answer_only(
                match receipt.outcome {
                    EditRecipeReceiptOutcome::Saved => EditRecipeWriteOutcome::Replayed(recipe),
                    EditRecipeReceiptOutcome::Unchanged => EditRecipeWriteOutcome::Unchanged(
                        recipe,
                    ),
                },
            ),
        ),
        Err(error) => Err(error),
    }
}

fn answer_only(outcome: EditRecipeWriteOutcome) -> (change: EditRecipeChange)
    ensures
        change == (EditRecipeChange { outcome, recipe: None, receipt: None }),
{
    EditRecipeChange { outcome, recipe: None, receipt: None }
}

/// What refuses any write of a recipe: there is no such Photo, its source is no
/// RAW file, or it cannot be read.
pub open spec fn source_refusal(facts: RecipeFacts) -> Option<EditRecipeWriteOutcome> {
    let source = facts.source->0;
    if facts.current is None || facts.source is None {
        Some(EditRecipeWriteOutcome::MissingPhoto)
    } else if source.0 != OriginalKind::Raw {
        Some(EditRecipeWriteOutcome::UnsupportedPhoto)
    } else if !source.1 || !facts.current->0.source_available {
        Some(EditRecipeWriteOutcome::Unavailable)
    } else {
        None
    }
}

/// The columns that tell what a Photo is processed from.
#[derive(Clone, Debug, PartialEq, Eq)]
pub struct StoredSource {
    pub kind: String,
    pub original_available: i64,
    pub photo_available: i64,
}

/// The kind of the file that a Photo is processed from, and whether both the file and
/// the Photo are there. A kind that cannot be read is a failure of storage.
pub fn photo_processing_source(stored: &Option<StoredSource>) -> (source: Result<
    Option<(OriginalKind, bool)>,
    PersistenceError,
>)
    ensures
        source == (match *stored {
            None => Ok::<Option<(OriginalKind, bool)>, PersistenceError>(None),
            Some(row) => match kind_of(row.kind@) {
                Some(kind) => Ok::<Option<(OriginalKind, bool)>, PersistenceError>(
                    Some((kind, row.original_available != 0 && row.photo_available != 0)),
                ),
                None => Err::<Option<(OriginalKind, bool)>, PersistenceError>(
                    PersistenceError::Storage,
                ),
            },
        }),
{
    match stored {
        None => Ok(None),
        Some(row) => match parse_kind(&row.kind) {
            Some(kind) => Ok(
                Some((kind, row.original_available != 0 && row.photo_available != 0)),
            ),
            None => Err(PersistenceError::Storage),
        },
    }
}

fn refuse_source(facts: &RecipeFacts) -> (refusal: Option<EditRecipeWriteOutcome>)
    ensures
        refusal == source_refusal(*facts),
{
    match (&facts.current, facts.source) {
        (Some(current), Some((kind, available))) => {
            if kind != OriginalKind::Raw {
                Some(EditRecipeWriteOutcome::UnsupportedPhoto)
            } else if !available || !current.source_available {
                Some(EditRecipeWriteOutcome::Unavailable)
            } else {
                None
            }
        },
        _ => Some(EditRecipeWriteOutcome::MissingPhoto),
    }
}

/// The version of a recipe, if any.
pub open spec fn recipe_version(read: EditRecipeRead) -> Option<Seq<char>> {
    match read.recipe {
        Some(recipe) => Some(recipe.revision@),
        None => None,
    }
}

/// Whether the settings and the identity of a request to save a recipe are valid.
pub open spec fn save_valid(mutation: SaveEditRecipe) -> bool {
    finite(mutation.settings.exposure_ev) && intent_in_bounds(mutation.settings.white_balance)
        && mutation.expected_source_revision@.len() > 0 && request_id_valid(
        mutation.request_id@,
        MAXIMUM_EDIT_RECIPE_REQUEST_ID_BYTES,
    )
}

/// What a request to save a recipe is answered where no receipt answers it.
pub open spec fn save_outcome(
    facts: RecipeFacts,
    mutation: SaveEditRecipe,
    revision: String,
) -> EditRecipeWriteOutcome {
    let current = facts.current->0;
    if source_refusal(facts) is Some {
        source_refusal(facts)->0
    } else if current.current_source_revision@ != mutation.expected_source_revision@ {
        EditRecipeWriteOutcome::SourceChanged(current)
    } else if recipe_version(current) != opt_text(mutation.expected_recipe_version) {
        EditRecipeWriteOutcome::Conflict(current)
    } else if current.recipe is Some && current.recipe->0.source_revision@
        != mutation.expected_source_revision@ {
        EditRecipeWriteOutcome::RequiresRebind(current)
    } else if current.recipe is Some && same_settings(
        current.recipe->0.settings,
        mutation.settings,
    ) {
        EditRecipeWriteOutcome::Unchanged(current.recipe->0)
    } else {
        EditRecipeWriteOutcome::Saved(
            EditRecipe {
                photo_id: mutation.photo_id,
                revision,
                source_revision: mutation.expected_source_revision,
                settings: mutation.settings,
            },
        )
    }
}

/// Whether what is stored fits an answer: a saved recipe is stored with its
/// receipt, an unchanged one has a receipt alone, and nothing else stores
/// anything.
pub open spec fn stores(change: EditRecipeChange, digest: Seq<char>) -> bool {
    match change.outcome {
        EditRecipeWriteOutcome::Saved(recipe) => change.recipe == Some(recipe) && change.receipt
            is Some && receipt_for(
            change.receipt->0,
            recipe,
            digest,
            EditRecipeReceiptOutcome::Saved,
        ),
        EditRecipeWriteOutcome::Unchanged(recipe) => change.recipe is None && change.receipt
            is Some && receipt_for(
            change.receipt->0,
            recipe,
            digest,
            EditRecipeReceiptOutcome::Unchanged,
        ),
        _ => change.recipe is None && change.receipt is None,
    }
}

/// Whether the database holds a recipe: it counts the characters of its revisions
/// before the first NUL.
pub open spec fn storable_recipe(recipe: EditRecipe) -> bool {
    stored_length(recipe.revision@) > 0 && stored_length(recipe.source_revision@) > 0
}

/// Whether a change is that of an answer: a recipe that the database does not hold
/// is not saved.
pub open spec fn answered(
    outcome: EditRecipeWriteOutcome,
    digest: Seq<char>,
    change: Result<EditRecipeChange, PersistenceError>,
) -> bool {
    if outcome is Saved && !storable_recipe(outcome->Saved_0) {
        change == Err::<EditRecipeChange, PersistenceError>(PersistenceError::Storage)
    } else {
        change is Ok && change->Ok_0.outcome == outcome && stores(change->Ok_0, digest)
    }
}

fn save_recipe(recipe: EditRecipe, digest: &String) -> (change: Result<
    EditRecipeChange,
    PersistenceError,
>)
    ensures
        answered(EditRecipeWriteOutcome::Saved(recipe), digest@, change),
{
    if length_before_nul(&recipe.revision) == 0 || length_before_nul(&recipe.source_revision)
        == 0 {
        return Err(PersistenceError::Storage);
    }
    Ok(
        EditRecipeChange {
            outcome: EditRecipeWriteOutcome::Saved(clone_recipe(&recipe)),
            receipt: Some(make_receipt(&recipe, digest, EditRecipeReceiptOutcome::Saved)),
            recipe: Some(recipe),
        },
    )
}

/// What a request to save a recipe decides: one that is not valid or that has a
/// receipt stores nothing.
pub open spec fn save_decided(
    facts: RecipeFacts,
    mutation: SaveEditRecipe,
    digest: Seq<char>,
    revision: String,
    change: Result<EditRecipeChange, PersistenceError>,
) -> bool {
    if !save_valid(mutation) {
        change == Ok::<EditRecipeChange, PersistenceError>(
            EditRecipeChange {
                outcome: EditRecipeWriteOutcome::InvalidSettings,
                recipe: None,
                receipt: None,
            },
        )
    } else {
        match facts.receipt {
            Some(receipt) => change == (match replayed(receipt, mutation.photo_id@, digest) {
                Ok(outcome) => Ok::<EditRecipeChange, PersistenceError>(
                    EditRecipeChange { outcome, recipe: None, receipt: None },
                ),
                Err(error) => Err::<EditRecipeChange, PersistenceError>(error),
            }),
            None => answered(save_outcome(facts, mutation, revision), digest, change),
        }
    }
}

/// Decides a request to save a recipe. `exposure` is the exposure of the request as
/// a JSON number and `revision` the new version, a random identity.
pub fn save_edit_recipe(
    facts: &RecipeFacts,
    mutation: &SaveEditRecipe,
    exposure: &String,
    revision: &String,
) -> (change: Result<EditRecipeChange, PersistenceError>)
    ensures
        save_decided(
            *facts,
            *mutation,
            text_digest(save_payload(*mutation, exposure@)),
            *revision,
            change,
        ),
{
    let digest: String = edit_recipe_payload_digest(mutation, exposure);
    decide_save(facts, mutation, &digest, revision)
}

/// What a request to save a recipe is answered before anything is read: nothing
/// where it is valid.
pub fn refuse_save(mutation: &SaveEditRecipe) -> (refusal: Option<EditRecipeWriteOutcome>)
    ensures
        refusal == (if save_valid(*mutation) {
            None
        } else {
            Some(EditRecipeWriteOutcome::InvalidSettings)
        }),
{
    if !mutation.settings.exposure_ev.is_finite()
        || !mutation.settings.white_balance.within_payload_bounds()
        || mutation.expected_source_revision.as_str().unicode_len() == 0
        || !validate_edit_recipe_request_id(&mutation.request_id) {
        Some(EditRecipeWriteOutcome::InvalidSettings)
    } else {
        None
    }
}

/// Decides a request to save a recipe whose digest is known.
pub fn decide_save(
    facts: &RecipeFacts,
    mutation: &SaveEditRecipe,
    digest: &String,
    revision: &String,
) -> (change: Result<EditRecipeChange, PersistenceError>)
    ensures
        save_decided(*facts, *mutation, digest@, *revision, change),
{
    match refuse_save(mutation) {
        Some(refusal) => {
            return Ok(answer_only(refusal));
        },
        None => {},
    }
    match &facts.receipt {
        Some(receipt) => {
            return replay(receipt, &mutation.photo_id, digest);
        },
        None => {},
    }
    match refuse_source(facts) {
        Some(refusal) => {
            return Ok(answer_only(refusal));
        },
        None => {},
    }
    let current: &EditRecipeRead = match &facts.current {
        Some(current) => current,
        None => {
            return Ok(answer_only(EditRecipeWriteOutcome::MissingPhoto));
        },
    };
    if !same_text(&current.current_source_revision, &mutation.expected_source_revision) {
        return Ok(answer_only(EditRecipeWriteOutcome::SourceChanged(clone_recipe_read(current))));
    }
    let as_expected: bool = match (&current.recipe, &mutation.expected_recipe_version) {
        (Some(recipe), Some(version)) => same_text(&recipe.revision, version),
        (None, None) => true,
        _ => false,
    };
    if !as_expected {
        return Ok(answer_only(EditRecipeWriteOutcome::Conflict(clone_recipe_read(current))));
    }
    match &current.recipe {
        Some(recipe) => {
            if !same_text(&recipe.source_revision, &mutation.expected_source_revision) {
                return Ok(
                    answer_only(
                        EditRecipeWriteOutcome::RequiresRebind(clone_recipe_read(current)),
                    ),
                );
            }
            if recipe.settings.exposure_ev.same(mutation.settings.exposure_ev)
                && recipe.settings.white_balance == mutation.settings.white_balance {
                return Ok(
                    EditRecipeChange {
                        outcome: EditRecipeWriteOutcome::Unchanged(clone_recipe(recipe)),
                        recipe: None,
                        receipt: Some(
                            make_receipt(recipe, digest, EditRecipeReceiptOutcome::Unchanged),
                        ),
                    },
                );
            }
        },
        None => {},
    }
    let saved: EditRecipe = EditRecipe {
        photo_id: mutation.photo_id.clone(),
        revision: revision.clone(),
        source_revision: mutation.expected_source_revision.clone(),
        settings: mutation.settings,
    };
    save_recipe(saved, digest)
}

/// Whether a request to rebind a recipe is valid.
pub open spec fn rebind_valid(mutation: RebindEditRecipe) -> bool {
    mutation.new_source_revision@.len() > 0 && request_id_valid(
        mutation.request_id@,
        MAXIMUM_EDIT_RECIPE_REQUEST_ID_BYTES,
    )
}

/// What a request to rebind a recipe is answered where no receipt answers it.
pub open spec fn rebind_outcome(
    facts: RecipeFacts,
    mutation: RebindEditRecipe,
    revision: String,
) -> EditRecipeWriteOutcome {
    let current = facts.current->0;
    if source_refusal(facts) is Some {
        source_refusal(facts)->0
    } else if current.recipe is None {
        EditRecipeWriteOutcome::MissingRecipe
    } else if current.recipe->0.revision@ != mutation.expected_recipe_version@ {
        EditRecipeWriteOutcome::Conflict(current)
    } else if current.current_source_revision@ != mutation.new_source_revision@ {
        EditRecipeWriteOutcome::SourceChanged(current)
    } else if current.recipe->0.source_revision@ == mutation.new_source_revision@ {
        EditRecipeWriteOutcome::Unchanged(current.recipe->0)
    } else {
        EditRecipeWriteOutcome::Saved(
            EditRecipe {
                photo_id: mutation.photo_id,
                revision,
                source_revision: mutation.new_source_revision,
                settings: current.recipe->0.settings,
            },
        )
    }
}

/// What a request to rebind a recipe decides: one that is not valid or that has a
/// receipt stores nothing.
pub open spec fn rebind_decided(
    facts: RecipeFacts,
    mutation: RebindEditRecipe,
    digest: Seq<char>,
    revision: String,
    change: Result<EditRecipeChange, PersistenceError>,
) -> bool {
    if !rebind_valid(mutation) {
        change == Ok::<EditRecipeChange, PersistenceError>(
            EditRecipeChange {
                outcome: EditRecipeWriteOutcome::InvalidSettings,
                recipe: None,
                receipt: None,
            },
        )
    } else {
        match facts.receipt {
            Some(receipt) => change == (match replayed(receipt, mutation.photo_id@, digest) {
                Ok(outcome) => Ok::<EditRecipeChange, PersistenceError>(
                    EditRecipeChange { outcome, recipe: None, receipt: None },
                ),
                Err(error) => Err::<EditRecipeChange, PersistenceError>(error),
            }),
            None => answered(rebind_outcome(facts, mutation, revision), digest, change),
        }
    }
}

/// Decides a request to rebind a recipe. `revision` is the new version, a random
/// identity.
pub fn rebind_edit_recipe(
    facts: &RecipeFacts,
    mutation: &RebindEditRecipe,
    revision: &String,
) -> (change: Result<EditRecipeChange, PersistenceError>)
    ensures
        rebind_decided(
            *facts,
            *mutation,
            text_digest(rebind_payload(*mutation)),
            *revision,
            change,
        ),
{
    let digest: String = edit_recipe_rebind_payload_digest(mutation);
    decide_rebind(facts, mutation, &digest, revision)
}

/// What a request to rebind a recipe is answered before anything is read: nothing
/// where it is valid.
pub fn refuse_rebind(mutation: &RebindEditRecipe) -> (refusal: Option<EditRecipeWriteOutcome>)
    ensures
        refusal == (if rebind_valid(*mutation) {
            None
        } else {
            Some(EditRecipeWriteOutcome::InvalidSettings)
        }),
{
    if mutation.new_source_revision.as_str().unicode_len() == 0
        || !validate_edit_recipe_request_id(&mutation.request_id) {
        Some(EditRecipeWriteOutcome::InvalidSettings)
    } else {
        None
    }
}

/// Decides a request to rebind a recipe whose digest is known.
pub fn decide_rebind(
    facts: &RecipeFacts,
    mutation: &RebindEditRecipe,
    digest: &String,
    revision: &String,
) -> (change: Result<EditRecipeChange, PersistenceError>)
    ensures
        rebind_decided(*facts, *mutation, digest@, *revision, change),
{
    match refuse_rebind(mutation) {
        Some(refusal) => {
            return Ok(answer_only(refusal));
        },
        None => {},
    }
    match &facts.receipt {
        Some(receipt) => {
            return replay(receipt, &mutation.photo_id, digest);
        },
        None => {},
    }
    match refuse_source(facts) {
        Some(refusal) => {
            return Ok(answer_only(refusal));
        },
        None => {},
    }
    let current: &EditRecipeRead = match &facts.current {
        Some(current) => current,
        None => {
            return Ok(answer_only(EditRecipeWriteOutcome::MissingPhoto));
        },
    };
    let recipe: &EditRecipe = match &current.recipe {
        Some(recipe) => recipe,
        None => {
            return Ok(answer_only(EditRecipeWriteOutcome::MissingRecipe));
        },
    };
    if !same_text(&recipe.revision, &mutation.expected_recipe_version) {
        return Ok(answer_only(EditRecipeWriteOutcome::Conflict(clone_recipe_read(current))));
    }
    if !same_text(&current.current_source_revision, &mutation.new_source_revision) {
        return Ok(answer_only(EditRecipeWriteOutcome::SourceChanged(clone_recipe_read(current))));
    }
    if same_text(&recipe.source_revision, &mutation.new_source_revision) {
        return Ok(
            EditRecipeChange {
                outcome: EditRecipeWriteOutcome::Unchanged(clone_recipe(recipe)),
                recipe: None,
                receipt: Some(make_receipt(recipe, digest, EditRecipeReceiptOutcome::Unchanged)),
            },
        );
    }
    let rebound: EditRecipe = EditRecipe {
        photo_id: mutation.photo_id.clone(),
        revision: revision.clone(),
        source_revision: mutation.new_source_revision.clone(),
        settings: recipe.settings,
    };
    save_recipe(rebound, digest)
}

/// A request that is repeated is answered with what it was answered first,
/// whatever happened to the recipe since: the receipt of a saved recipe replays
/// it, that of an unchanged one says so again.
pub proof fn law_repeated_requests_are_answered_alike(
    change: EditRecipeChange,
    recipe: EditRecipe,
    digest: Seq<char>,
)
    requires
        stores(change, digest),
        change.outcome == EditRecipeWriteOutcome::Saved(recipe) || change.outcome
            == EditRecipeWriteOutcome::Unchanged(recipe),
        intent_in_bounds(recipe.settings.white_balance),
    ensures
        replayed(change.receipt->0, recipe.photo_id@, digest) == Ok::<
            EditRecipeWriteOutcome,
            PersistenceError,
        >(
            if change.outcome is Saved {
                EditRecipeWriteOutcome::Replayed(recipe)
            } else {
                EditRecipeWriteOutcome::Unchanged(recipe)
            },
        ),
{
    law_intents_read_back(recipe.settings.white_balance);
}

/// A request with the identity of another one is refused, whatever the recipe is
/// now.
pub proof fn law_other_payloads_conflict(
    receipt: EditRecipeReceipt,
    photo_id: Seq<char>,
    digest: Seq<char>,
)
    requires
        receipt.payload_digest@ != digest || receipt.photo_id@ != photo_id,
    ensures
        replayed(receipt, photo_id, digest) == Ok::<EditRecipeWriteOutcome, PersistenceError>(
            EditRecipeWriteOutcome::RequestConflict,
        ),
{
}

/// A recipe is saved only over the version and the source that the request names.
pub proof fn law_saving_compares_before_it_writes(
    facts: RecipeFacts,
    mutation: SaveEditRecipe,
    revision: String,
)
    requires
        save_outcome(facts, mutation, revision) is Saved,
    ensures
        facts.current is Some,
        recipe_version(facts.current->0) == opt_text(mutation.expected_recipe_version),
        facts.current->0.current_source_revision@ == mutation.expected_source_revision@,
        facts.current->0.recipe is Some ==> facts.current->0.recipe->0.source_revision@
            == mutation.expected_source_revision@,
{
}

/// Rebinding keeps the settings and binds them to the current source.
pub proof fn law_rebinding_keeps_the_settings(
    facts: RecipeFacts,
    mutation: RebindEditRecipe,
    revision: String,
)
    requires
        rebind_outcome(facts, mutation, revision) is Saved,
    ensures
        rebind_outcome(facts, mutation, revision)->Saved_0.settings
            == facts.current->0.recipe->0.settings,
        rebind_outcome(facts, mutation, revision)->Saved_0.source_revision@
            == facts.current->0.current_source_revision@,
        facts.current->0.recipe->0.revision@ == mutation.expected_recipe_version@,
{
}

proof fn lemma_number_ends(a: Seq<char>, r: Seq<char>, b: Seq<char>, s: Seq<char>, end: char)
    requires
        forall|i: int| 0 <= i < a.len() ==> #[trigger] a[i] != end,
        forall|i: int| 0 <= i < b.len() ==> #[trigger] b[i] != end,
        r.len() > 0,
        s.len() > 0,
        r[0] == end,
        s[0] == end,
        a + r == b + s,
    ensures
        a == b,
        r == s,
{
    let left = a + r;
    let right = b + s;
    if a.len() < b.len() {
        assert(left[a.len() as int] == end);
        assert(right[a.len() as int] == b[a.len() as int]);
    } else if b.len() < a.len() {
        assert(right[b.len() as int] == end);
        assert(left[b.len() as int] == a[b.len() as int]);
    }
    let n = a.len() as int;
    assert(left.take(n) =~= a);
    assert(right.take(n) =~= b);
    assert(left.skip(n) =~= r);
    assert(right.skip(n) =~= s);
}

proof fn lemma_same_start(start: Seq<char>, a: Seq<char>, b: Seq<char>)
    requires
        start + a == start + b,
    ensures
        a == b,
{
    let n = start.len() as int;
    assert((start + a).skip(n) =~= a);
    assert((start + b).skip(n) =~= b);
}

proof fn lemma_signed_has_no(n: int, c: char)
    requires
        c == ',' || c == '}',
    ensures
        forall|i: int|
            0 <= i < signed_decimal(n).len() ==> #[trigger] signed_decimal(n)[i] != c,
{
    let magnitude = if n < 0 {
        (-n) as nat
    } else {
        n as nat
    };
    law_decimal_reads_back(magnitude);
    let text = signed_decimal(n);
    assert forall|i: int| 0 <= i < text.len() implies #[trigger] text[i] != c by {
        if n < 0 {
            if i > 0 {
                assert(text[i] == decimal(magnitude)[i - 1]);
                assert(is_digit(decimal(magnitude)[i - 1]));
            }
        } else {
            assert(is_digit(text[i]));
        }
    }
}

proof fn lemma_intent_json_tells(a: WhiteBalanceIntent, b: WhiteBalanceIntent)
    requires
        intent_json(a) == intent_json(b),
    ensures
        a == b,
{
    reveal_strlit("\"as-shot\"");
    reveal_strlit("{\"mode\":\"temperature-tint\",\"temperature_kelvin\":");
    reveal_strlit(",\"tint_milli\":");
    reveal_strlit("}");
    match (a, b) {
        (
            WhiteBalanceIntent::TemperatureTint { temperature_kelvin: t1, tint_milli: m1 },
            WhiteBalanceIntent::TemperatureTint { temperature_kelvin: t2, tint_milli: m2 },
        ) => {
            let head = "{\"mode\":\"temperature-tint\",\"temperature_kelvin\":"@;
            let middle = ",\"tint_milli\":"@;
            let end = "}"@;
            let x1 = signed_decimal(t1 as int);
            let x2 = signed_decimal(t2 as int);
            let y1 = signed_decimal(m1 as int);
            let y2 = signed_decimal(m2 as int);
            assert(intent_json(a) =~= head + (x1 + (middle + (y1 + end))));
            assert(intent_json(b) =~= head + (x2 + (middle + (y2 + end))));
            lemma_same_start(head, x1 + (middle + (y1 + end)), x2 + (middle + (y2 + end)));
            lemma_signed_has_no(t1 as int, ',');
            lemma_signed_has_no(t2 as int, ',');
            lemma_number_ends(x1, middle + (y1 + end), x2, middle + (y2 + end), ',');
            lemma_same_start(middle, y1 + end, y2 + end);
            lemma_signed_has_no(m1 as int, '}');
            lemma_signed_has_no(m2 as int, '}');
            lemma_number_ends(y1, end, y2, end, '}');
            law_signed_decimal_reads_back(t1 as int);
            law_signed_decimal_reads_back(t2 as int);
            law_signed_decimal_reads_back(m1 as int);
            law_signed_decimal_reads_back(m2 as int);
        },
        (WhiteBalanceIntent::AsShot, WhiteBalanceIntent::TemperatureTint { .. }) => {
            assert(intent_json(a)[0] == '"');
            assert(intent_json(b)[0] == '{');
        },
        (WhiteBalanceIntent::TemperatureTint { .. }, WhiteBalanceIntent::AsShot) => {
            assert(intent_json(b)[0] == '"');
            assert(intent_json(a)[0] == '{');
        },
        _ => {},
    }
}

proof fn lemma_regroup(a: Seq<char>, b: Seq<char>, c: Seq<char>)
    ensures
        (a + b) + c == a + (b + c),
{
    assert((a + b) + c =~= a + (b + c));
}

/// What follows the expected version in the text of a request to save a recipe.
spec fn payload_rest(mutation: SaveEditRecipe, exposure: Seq<char>) -> Seq<char> {
    ",\"expected_source_revision\":"@ + (json_text(mutation.expected_source_revision@) + (
    ",\"exposure_ev\":"@ + (exposure + (",\"photo_id\":"@ + (json_text(mutation.photo_id@) + (
    ",\"white_balance\":"@ + (intent_json(mutation.settings.white_balance) + "}"@)))))))
}

proof fn lemma_payload_parts(mutation: SaveEditRecipe, exposure: Seq<char>)
    ensures
        save_payload(mutation, exposure) == "{\"expected_recipe_revision\":"@ + (json_opt_text(
            opt_text(mutation.expected_recipe_version),
        ) + payload_rest(mutation, exposure)),
{
    let x0 = "{\"expected_recipe_revision\":"@;
    let x1 = json_opt_text(opt_text(mutation.expected_recipe_version));
    let x2 = ",\"expected_source_revision\":"@;
    let x3 = json_text(mutation.expected_source_revision@);
    let x4 = ",\"exposure_ev\":"@;
    let x5 = exposure;
    let x6 = ",\"photo_id\":"@;
    let x7 = json_text(mutation.photo_id@);
    let x8 = ",\"white_balance\":"@;
    let x9 = intent_json(mutation.settings.white_balance);
    let x10 = "}"@;
    let l1 = x0 + x1;
    let l2 = l1 + x2;
    let l3 = l2 + x3;
    let l4 = l3 + x4;
    let l5 = l4 + x5;
    let l6 = l5 + x6;
    let l7 = l6 + x7;
    let l8 = l7 + x8;
    let r8 = x9 + x10;
    let r7 = x8 + r8;
    let r6 = x7 + r7;
    let r5 = x6 + r6;
    let r4 = x5 + r5;
    let r3 = x4 + r4;
    let r2 = x3 + r3;
    let r1 = x2 + r2;
    lemma_regroup(l8, x9, x10);
    lemma_regroup(l7, x8, r8);
    lemma_regroup(l6, x7, r7);
    lemma_regroup(l5, x6, r6);
    lemma_regroup(l4, x5, r5);
    lemma_regroup(l3, x4, r4);
    lemma_regroup(l2, x3, r3);
    lemma_regroup(l1, x2, r2);
    lemma_regroup(x0, x1, r1);
}

/// Two requests to save a recipe with the same payload text want the same: what
/// the digest is computed of leaves nothing out and confuses nothing. The texts
/// of numbers hold no comma.
pub proof fn law_save_payloads_are_told_apart(
    a: SaveEditRecipe,
    exposure_a: Seq<char>,
    b: SaveEditRecipe,
    exposure_b: Seq<char>,
)
    requires
        save_payload(a, exposure_a) == save_payload(b, exposure_b),
        forall|i: int| 0 <= i < exposure_a.len() ==> #[trigger] exposure_a[i] != ',',
        forall|i: int| 0 <= i < exposure_b.len() ==> #[trigger] exposure_b[i] != ',',
    ensures
        a.photo_id@ == b.photo_id@,
        opt_text(a.expected_recipe_version) == opt_text(b.expected_recipe_version),
        a.expected_source_revision@ == b.expected_source_revision@,
        exposure_a == exposure_b,
        a.settings.white_balance == b.settings.white_balance,
{
    let p1 = "{\"expected_recipe_revision\":"@;
    let p2 = ",\"expected_source_revision\":"@;
    let p3 = ",\"exposure_ev\":"@;
    let p4 = ",\"photo_id\":"@;
    let p5 = ",\"white_balance\":"@;
    let p6 = "}"@;
    let va = opt_text(a.expected_recipe_version);
    let vb = opt_text(b.expected_recipe_version);
    let a5 = intent_json(a.settings.white_balance) + p6;
    let b5 = intent_json(b.settings.white_balance) + p6;
    let a4 = json_text(a.photo_id@) + (p5 + a5);
    let b4 = json_text(b.photo_id@) + (p5 + b5);
    let a3 = exposure_a + (p4 + a4);
    let b3 = exposure_b + (p4 + b4);
    let a2 = json_text(a.expected_source_revision@) + (p3 + a3);
    let b2 = json_text(b.expected_source_revision@) + (p3 + b3);
    let a1 = json_opt_text(va) + (p2 + a2);
    let b1 = json_opt_text(vb) + (p2 + b2);
    lemma_payload_parts(a, exposure_a);
    lemma_payload_parts(b, exposure_b);
    assert(p1 + a1 == p1 + b1);
    lemma_same_start(p1, a1, b1);
    law_json_opt_texts_are_told_apart(va, p2 + a2, vb, p2 + b2);
    lemma_same_start(p2, a2, b2);
    law_json_texts_are_told_apart(
        a.expected_source_revision@,
        p3 + a3,
        b.expected_source_revision@,
        p3 + b3,
    );
    lemma_same_start(p3, a3, b3);
    assert(p4.len() > 0 && p4[0] == ',') by {
        reveal_strlit(",\"photo_id\":");
    }
    assert((p4 + a4)[0] == ',');
    assert((p4 + b4)[0] == ',');
    lemma_number_ends(exposure_a, p4 + a4, exposure_b, p4 + b4, ',');
    lemma_same_start(p4, a4, b4);
    law_json_texts_are_told_apart(a.photo_id@, p5 + a5, b.photo_id@, p5 + b5);
    lemma_same_start(p5, a5, b5);
    let x = intent_json(a.settings.white_balance);
    let y = intent_json(b.settings.white_balance);
    assert(a5.take(a5.len() - p6.len()) =~= x);
    assert(b5.take(b5.len() - p6.len()) =~= y);
    lemma_intent_json_tells(a.settings.white_balance, b.settings.white_balance);
}

proof fn lemma_rebind_parts(mutation: RebindEditRecipe)
    ensures
        rebind_payload(mutation) == "{\"expected_recipe_version\":"@ + (json_text(
            mutation.expected_recipe_version@,
        ) + (",\"kind\":\"rebind\",\"new_source_revision\":"@ + (json_text(
            mutation.new_source_revision@,
        ) + (",\"photo_id\":"@ + (json_text(mutation.photo_id@) + "}"@))))),
{
    let x0 = "{\"expected_recipe_version\":"@;
    let x1 = json_text(mutation.expected_recipe_version@);
    let x2 = ",\"kind\":\"rebind\",\"new_source_revision\":"@;
    let x3 = json_text(mutation.new_source_revision@);
    let x4 = ",\"photo_id\":"@;
    let x5 = json_text(mutation.photo_id@);
    let x6 = "}"@;
    let l1 = x0 + x1;
    let l2 = l1 + x2;
    let l3 = l2 + x3;
    let l4 = l3 + x4;
    let r4 = x5 + x6;
    let r3 = x4 + r4;
    let r2 = x3 + r3;
    let r1 = x2 + r2;
    lemma_regroup(l4, x5, x6);
    lemma_regroup(l3, x4, r4);
    lemma_regroup(l2, x3, r3);
    lemma_regroup(l1, x2, r2);
    lemma_regroup(x0, x1, r1);
}

/// Whether two requests to save a recipe want the same, whatever their identities
/// are. Their exposures are given as JSON numbers.
pub open spec fn wants_same(
    a: SaveEditRecipe,
    exposure_a: Seq<char>,
    b: SaveEditRecipe,
    exposure_b: Seq<char>,
) -> bool {
    &&& a.photo_id@ == b.photo_id@
    &&& opt_text(a.expected_recipe_version) == opt_text(b.expected_recipe_version)
    &&& a.expected_source_revision@ == b.expected_source_revision@
    &&& exposure_a == exposure_b
    &&& a.settings.white_balance == b.settings.white_balance
}

/// A request that saved a recipe, or found it unchanged, stores nothing when its
/// identity is used again: the same request gets the same answer whatever happened
/// to the recipe since, and another one conflicts, unless SHA-256 gives two payload
/// texts one digest.
pub proof fn law_repeated_saves_store_nothing(
    facts: RecipeFacts,
    first: SaveEditRecipe,
    exposure_first: Seq<char>,
    revision_first: String,
    change: EditRecipeChange,
    later: RecipeFacts,
    again: SaveEditRecipe,
    exposure_again: Seq<char>,
    revision_again: String,
    answer: Result<EditRecipeChange, PersistenceError>,
)
    requires
        save_decided(
            facts,
            first,
            text_digest(save_payload(first, exposure_first)),
            revision_first,
            Ok(change),
        ),
        facts.current matches Some(current) ==> current.recipe matches Some(recipe)
            ==> recipe.photo_id@ == first.photo_id@,
        change.receipt is Some,
        later.receipt == change.receipt,
        save_valid(again),
        save_decided(
            later,
            again,
            text_digest(save_payload(again, exposure_again)),
            revision_again,
            answer,
        ),
        forall|i: int| 0 <= i < exposure_first.len() ==> #[trigger] exposure_first[i] != ',',
        forall|i: int| 0 <= i < exposure_again.len() ==> #[trigger] exposure_again[i] != ',',
    ensures
        answer is Ok,
        answer->Ok_0.recipe is None,
        answer->Ok_0.receipt is None,
        wants_same(first, exposure_first, again, exposure_again) ==> match change.outcome {
            EditRecipeWriteOutcome::Saved(recipe) => answer->Ok_0.outcome
                == EditRecipeWriteOutcome::Replayed(recipe),
            _ => answer->Ok_0.outcome == change.outcome,
        },
        !wants_same(first, exposure_first, again, exposure_again) ==> {
            let payload = save_payload(first, exposure_first);
            let other = save_payload(again, exposure_again);
            &&& payload != other
            &&& answer->Ok_0.outcome is RequestConflict || text_digest(payload) == text_digest(
                other,
            )
        },
{
    let payload = save_payload(first, exposure_first);
    let other = save_payload(again, exposure_again);
    let recipe = match change.outcome {
        EditRecipeWriteOutcome::Saved(recipe) => recipe,
        EditRecipeWriteOutcome::Unchanged(recipe) => recipe,
        _ => facts.current->0.recipe->0,
    };
    law_repeated_requests_are_answered_alike(change, recipe, text_digest(payload));
    if !wants_same(first, exposure_first, again, exposure_again) && payload == other {
        law_save_payloads_are_told_apart(first, exposure_first, again, exposure_again);
    }
}

/// Two requests to rebind a recipe with the same payload text want the same.
pub proof fn law_rebind_payloads_are_told_apart(a: RebindEditRecipe, b: RebindEditRecipe)
    requires
        rebind_payload(a) == rebind_payload(b),
    ensures
        a.photo_id@ == b.photo_id@,
        a.expected_recipe_version@ == b.expected_recipe_version@,
        a.new_source_revision@ == b.new_source_revision@,
{
    let p1 = "{\"expected_recipe_version\":"@;
    let p2 = ",\"kind\":\"rebind\",\"new_source_revision\":"@;
    let p3 = ",\"photo_id\":"@;
    let p4 = "}"@;
    let a3 = json_text(a.photo_id@) + p4;
    let b3 = json_text(b.photo_id@) + p4;
    let a2 = json_text(a.new_source_revision@) + (p3 + a3);
    let b2 = json_text(b.new_source_revision@) + (p3 + b3);
    let a1 = json_text(a.expected_recipe_version@) + (p2 + a2);
    let b1 = json_text(b.expected_recipe_version@) + (p2 + b2);
    lemma_rebind_parts(a);
    lemma_rebind_parts(b);
    assert(p1 + a1 == p1 + b1);
    lemma_same_start(p1, a1, b1);
    law_json_texts_are_told_apart(
        a.expected_recipe_version@,
        p2 + a2,
        b.expected_recipe_version@,
        p2 + b2,
    );
    lemma_same_start(p2, a2, b2);
    law_json_texts_are_told_apart(
        a.new_source_revision@,
        p3 + a3,
        b.new_source_revision@,
        p3 + b3,
    );
    lemma_same_start(p3, a3, b3);
    law_json_texts_are_told_apart(a.photo_id@, p4, b.photo_id@, p4);
}

/// Whether two requests to rebind a recipe want the same, whatever their identities
/// are.
pub open spec fn rebinds_same(a: RebindEditRecipe, b: RebindEditRecipe) -> bool {
    &&& a.photo_id@ == b.photo_id@
    &&& a.expected_recipe_version@ == b.expected_recipe_version@
    &&& a.new_source_revision@ == b.new_source_revision@
}

/// A request that rebound a recipe, or found it bound, stores nothing when its
/// identity is used again: the same request gets the same answer whatever happened
/// to the recipe since, and another one conflicts, unless SHA-256 gives two payload
/// texts one digest.
pub proof fn law_repeated_rebinds_store_nothing(
    facts: RecipeFacts,
    first: RebindEditRecipe,
    revision_first: String,
    change: EditRecipeChange,
    later: RecipeFacts,
    again: RebindEditRecipe,
    revision_again: String,
    answer: Result<EditRecipeChange, PersistenceError>,
)
    requires
        rebind_decided(
            facts,
            first,
            text_digest(rebind_payload(first)),
            revision_first,
            Ok(change),
        ),
        facts.current matches Some(current) ==> current.recipe matches Some(recipe)
            ==> recipe.photo_id@ == first.photo_id@ && intent_in_bounds(
            recipe.settings.white_balance,
        ),
        change.receipt is Some,
        later.receipt == change.receipt,
        rebind_valid(again),
        rebind_decided(
            later,
            again,
            text_digest(rebind_payload(again)),
            revision_again,
            answer,
        ),
    ensures
        answer is Ok,
        answer->Ok_0.recipe is None,
        answer->Ok_0.receipt is None,
        rebinds_same(first, again) ==> match change.outcome {
            EditRecipeWriteOutcome::Saved(recipe) => answer->Ok_0.outcome
                == EditRecipeWriteOutcome::Replayed(recipe),
            _ => answer->Ok_0.outcome == change.outcome,
        },
        !rebinds_same(first, again) ==> {
            let payload = rebind_payload(first);
            let other = rebind_payload(again);
            &&& payload != other
            &&& answer->Ok_0.outcome is RequestConflict || text_digest(payload) == text_digest(
                other,
            )
        },
{
    let recipe = match change.outcome {
        EditRecipeWriteOutcome::Saved(recipe) => recipe,
        EditRecipeWriteOutcome::Unchanged(recipe) => recipe,
        _ => facts.current->0.recipe->0,
    };
    law_repeated_requests_are_answered_alike(change, recipe, text_digest(rebind_payload(first)));
    if !rebinds_same(first, again) && rebind_payload(first) == rebind_payload(again) {
        law_rebind_payloads_are_told_apart(first, again);
    }
}

/// No request to save a recipe has the payload text of a request to rebind one.
pub proof fn law_saving_and_rebinding_are_told_apart(
    save: SaveEditRecipe,
    exposure: Seq<char>,
    rebind: RebindEditRecipe,
)
    ensures
        save_payload(save, exposure) != rebind_payload(rebind),
{
    lemma_payload_parts(save, exposure);
    lemma_rebind_parts(rebind);
    reveal_strlit("{\"expected_recipe_revision\":");
    reveal_strlit("{\"expected_recipe_version\":");
    assert(save_payload(save, exposure)[18] == 'r');
    assert(rebind_payload(rebind)[18] == 'v');
}

/// Whether a change answers a request about a recipe and stores nothing.
pub open spec fn only_told(
    change: Result<EditRecipeChange, PersistenceError>,
    outcome: EditRecipeWriteOutcome,
) -> bool {
    change is Ok && change->Ok_0.outcome == outcome && change->Ok_0.recipe is None
        && change->Ok_0.receipt is None
}

/// The identity of a request is taken where it holds a character, takes no more than so
/// many bytes, and holds no control character, and only there.
pub proof fn law_request_identities_are_short_and_clean(id: Seq<char>, maximum: usize)
    ensures
        request_id_valid(id, maximum) <==> id.len() > 0 && encode_utf8(id).len() <= maximum && (
        forall|i: int|
            0 <= i < id.len() ==> {
                let c = #[trigger] id[i];
                !(c <= '\u{1f}') && !('\u{7f}' <= c && c <= '\u{9f}')
            }),
{
    if request_id_valid(id, maximum) {
        assert forall|i: int| 0 <= i < id.len() implies !(#[trigger] id[i] <= '\u{1f}') && !(
        '\u{7f}' <= id[i] && id[i] <= '\u{9f}') by {
            assert(!control(id[i]));
        }
    } else if id.len() > 0 && encode_utf8(id).len() <= maximum {
        let i = choose|i: int| 0 <= i < id.len() && control(#[trigger] id[i]);
        assert(control(id[i]));
    }
}

/// The settings of a request are taken where the exposure is finite, a temperature lies
/// between 1000 and 40000 kelvin and a tint between -150 and 150, and the request names
/// a source; other requests are told that their settings are invalid.
pub proof fn law_saves_in_bounds_are_taken(
    facts: RecipeFacts,
    mutation: SaveEditRecipe,
    digest: Seq<char>,
    revision: String,
    change: Result<EditRecipeChange, PersistenceError>,
)
    requires
        save_decided(facts, mutation, digest, revision, change),
        request_id_valid(mutation.request_id@, 128),
    ensures
        mutation.settings.exposure_ev.bits % 0x8000_0000_0000_0000 >= 0x7ff0_0000_0000_0000
            ==> only_told(change, EditRecipeWriteOutcome::InvalidSettings),
        mutation.expected_source_revision@.len() == 0 ==> only_told(
            change,
            EditRecipeWriteOutcome::InvalidSettings,
        ),
        mutation.settings.white_balance matches WhiteBalanceIntent::TemperatureTint {
            temperature_kelvin,
            tint_milli,
        } ==> (temperature_kelvin < 1000 || temperature_kelvin > 40000 || tint_milli < -150000
            || tint_milli > 150000 ==> only_told(change, EditRecipeWriteOutcome::InvalidSettings)),
        mutation.settings.exposure_ev.bits % 0x8000_0000_0000_0000 < 0x7ff0_0000_0000_0000
            && mutation.expected_source_revision@.len() > 0 && (
        mutation.settings.white_balance matches WhiteBalanceIntent::TemperatureTint {
            temperature_kelvin,
            tint_milli,
        } ==> 1000 <= temperature_kelvin <= 40000 && -150000 <= tint_milli <= 150000) && change
            is Ok ==> change->Ok_0.outcome !is InvalidSettings,
{
}

/// A request to save a recipe that was not answered before is refused for the first of
/// these reasons that holds: its Photo is not known, its source is no RAW file, the
/// source is not available, the source is another one by now, the recipe is another one
/// by now, the recipe was saved for another source. Nothing is stored.
pub proof fn law_saves_are_refused(
    facts: RecipeFacts,
    mutation: SaveEditRecipe,
    digest: Seq<char>,
    revision: String,
    change: Result<EditRecipeChange, PersistenceError>,
)
    requires
        save_decided(facts, mutation, digest, revision, change),
        save_valid(mutation),
        facts.receipt is None,
    ensures
        facts.current is None || facts.source is None ==> only_told(
            change,
            EditRecipeWriteOutcome::MissingPhoto,
        ),
        facts.current is Some && facts.source is Some ==> {
            let source = facts.source->0;
            let current = facts.current->0;
            let recipe = current.recipe->0;
            let there = source == (OriginalKind::Raw, true) && current.source_available;
            let version = if current.recipe is Some {
                mutation.expected_recipe_version is Some
                    && mutation.expected_recipe_version->0@ == recipe.revision@
            } else {
                mutation.expected_recipe_version is None
            };
            &&& source.0 != OriginalKind::Raw ==> only_told(
                change,
                EditRecipeWriteOutcome::UnsupportedPhoto,
            )
            &&& source.0 == OriginalKind::Raw && !there ==> only_told(
                change,
                EditRecipeWriteOutcome::Unavailable,
            )
            &&& there && current.current_source_revision@ != mutation.expected_source_revision@
                ==> only_told(change, EditRecipeWriteOutcome::SourceChanged(current))
            &&& there && current.current_source_revision@ == mutation.expected_source_revision@
                && !version ==> only_told(change, EditRecipeWriteOutcome::Conflict(current))
            &&& there && current.current_source_revision@ == mutation.expected_source_revision@
                && version && current.recipe is Some && recipe.source_revision@
                != mutation.expected_source_revision@ ==> only_told(
                change,
                EditRecipeWriteOutcome::RequiresRebind(current),
            )
        },
{
}

/// A save is answered as unchanged only where the stored recipe has the white balance
/// of the request and the same exposure, and then stores no recipe. Where the version
/// and the source are as expected and the white balance or the exposure differs, the
/// settings of the request are saved.
pub proof fn law_saves_store_what_differs(
    facts: RecipeFacts,
    mutation: SaveEditRecipe,
    digest: Seq<char>,
    revision: String,
    change: Result<EditRecipeChange, PersistenceError>,
)
    requires
        save_decided(facts, mutation, digest, revision, change),
        save_valid(mutation),
        facts.receipt is None,
    ensures
        ({
            let recipe = facts.current->0.recipe->0;
            let stored = recipe.settings.exposure_ev.bits;
            let asked = mutation.settings.exposure_ev.bits;
            let same = stored == asked || (stored % 0x8000_0000_0000_0000 == 0 && asked
                % 0x8000_0000_0000_0000 == 0);
            let alike = facts.current is Some && facts.current->0.recipe is Some && same
                && recipe.settings.white_balance == mutation.settings.white_balance;
            let ready = facts.current is Some && facts.source == Some((OriginalKind::Raw, true))
                && facts.current->0.source_available && facts.current->0.current_source_revision@
                == mutation.expected_source_revision@ && opt_text(mutation.expected_recipe_version)
                == (if facts.current->0.recipe is Some {
                Some(recipe.revision@)
            } else {
                None
            }) && (facts.current->0.recipe is Some ==> recipe.source_revision@
                == mutation.expected_source_revision@);
            &&& change is Ok && change->Ok_0.outcome is Unchanged ==> ready && alike
                && change->Ok_0.outcome->Unchanged_0 == recipe && change->Ok_0.recipe is None
            &&& ready && alike ==> change is Ok && change->Ok_0.outcome is Unchanged
            &&& change is Ok && change->Ok_0.outcome is Saved ==> ready && !alike
            &&& ready && !alike && stored_length(revision@) > 0 && stored_length(
                mutation.expected_source_revision@,
            ) > 0 ==> change is Ok && change->Ok_0.outcome is Saved
        }),
{
}

/// What a save stores is the request's: its Photo, its source and its settings, under
/// the new revision. The receipt holds the same, so that the request is answered from it
/// again.
pub proof fn law_saved_recipes_hold_what_was_asked(
    facts: RecipeFacts,
    mutation: SaveEditRecipe,
    digest: Seq<char>,
    revision: String,
    change: Result<EditRecipeChange, PersistenceError>,
)
    requires
        save_decided(facts, mutation, digest, revision, change),
        change is Ok,
        change->Ok_0.outcome is Saved,
    ensures
        ({
            let recipe = change->Ok_0.recipe->0;
            let receipt = change->Ok_0.receipt->0;
            &&& change->Ok_0.recipe is Some
            &&& change->Ok_0.outcome->Saved_0 == recipe
            &&& recipe.photo_id@ == mutation.photo_id@
            &&& recipe.revision@ == revision@
            &&& recipe.source_revision@ == mutation.expected_source_revision@
            &&& recipe.settings.exposure_ev.bits == mutation.settings.exposure_ev.bits
            &&& recipe.settings.white_balance == mutation.settings.white_balance
            &&& change->Ok_0.receipt is Some
            &&& receipt.photo_id@ == mutation.photo_id@
            &&& receipt.payload_digest@ == digest
            &&& receipt.outcome == EditRecipeReceiptOutcome::Saved
            &&& receipt.revision@ == revision@
            &&& receipt.source_revision@ == mutation.expected_source_revision@
            &&& receipt.exposure_ev.bits == mutation.settings.exposure_ev.bits
            &&& match mutation.settings.white_balance {
                WhiteBalanceIntent::AsShot => receipt.white_balance_mode@ == "as-shot"@
                    && receipt.temperature_kelvin is None && receipt.tint_milli is None,
                WhiteBalanceIntent::TemperatureTint { temperature_kelvin, tint_milli } =>
                receipt.white_balance_mode@ == "temperature-tint"@ && receipt.temperature_kelvin
                    == Some(temperature_kelvin) && receipt.tint_milli == Some(tint_milli),
            }
        }),
{
}

/// A save that changes nothing keeps a receipt of the recipe that there is.
pub proof fn law_unchanged_saves_keep_a_receipt(
    facts: RecipeFacts,
    mutation: SaveEditRecipe,
    digest: Seq<char>,
    revision: String,
    change: Result<EditRecipeChange, PersistenceError>,
)
    requires
        save_decided(facts, mutation, digest, revision, change),
        facts.receipt is None,
        change is Ok,
        change->Ok_0.outcome is Unchanged,
    ensures
        ({
            let recipe = facts.current->0.recipe->0;
            let receipt = change->Ok_0.receipt->0;
            &&& change->Ok_0.receipt is Some
            &&& receipt.photo_id@ == recipe.photo_id@
            &&& receipt.payload_digest@ == digest
            &&& receipt.outcome == EditRecipeReceiptOutcome::Unchanged
            &&& receipt.revision@ == recipe.revision@
            &&& receipt.source_revision@ == recipe.source_revision@
            &&& receipt.exposure_ev.bits == recipe.settings.exposure_ev.bits
        }),
{
}

/// A save that was answered before is answered from its receipt, and stores nothing: a
/// receipt of another request, or of another Photo, is a conflict; the others tell the
/// recipe that the receipt holds.
pub proof fn law_answered_saves_are_told_again(
    facts: RecipeFacts,
    mutation: SaveEditRecipe,
    digest: Seq<char>,
    revision: String,
    change: Result<EditRecipeChange, PersistenceError>,
)
    requires
        save_decided(facts, mutation, digest, revision, change),
        save_valid(mutation),
        facts.receipt is Some,
    ensures
        facts.receipt->0.photo_id@ != mutation.photo_id@ || facts.receipt->0.payload_digest@
            != digest ==> only_told(change, EditRecipeWriteOutcome::RequestConflict),
        facts.receipt->0.photo_id@ == mutation.photo_id@ && facts.receipt->0.payload_digest@
            == digest && change is Ok ==> {
            let receipt = facts.receipt->0;
            let told = if change->Ok_0.outcome is Replayed {
                change->Ok_0.outcome->Replayed_0
            } else {
                change->Ok_0.outcome->Unchanged_0
            };
            &&& change->Ok_0.recipe is None
            &&& change->Ok_0.receipt is None
            &&& receipt.outcome == EditRecipeReceiptOutcome::Saved ==> change->Ok_0.outcome
                is Replayed
            &&& receipt.outcome == EditRecipeReceiptOutcome::Unchanged ==> change->Ok_0.outcome
                is Unchanged
            &&& told.photo_id@ == receipt.photo_id@
            &&& told.revision@ == receipt.revision@
            &&& told.source_revision@ == receipt.source_revision@
            &&& told.settings.exposure_ev.bits == receipt.exposure_ev.bits
            &&& told.settings.white_balance matches WhiteBalanceIntent::TemperatureTint {
                temperature_kelvin,
                tint_milli,
            } ==> receipt.temperature_kelvin == Some(temperature_kelvin) && receipt.tint_milli
                == Some(tint_milli)
            &&& told.settings.white_balance == WhiteBalanceIntent::AsShot
                ==> receipt.temperature_kelvin is None && receipt.tint_milli is None
        },
{
}

/// A request to rebind a recipe that was not answered before is refused for the first
/// of these reasons that holds: it is malformed, its Photo is not known, its source is
/// no RAW file, the source is not available, there is no recipe, the recipe is another
/// one by now, the source is another one by now. A recipe that is bound to the source
/// already is unchanged.
pub proof fn law_rebinds_are_refused(
    facts: RecipeFacts,
    mutation: RebindEditRecipe,
    digest: Seq<char>,
    revision: String,
    change: Result<EditRecipeChange, PersistenceError>,
)
    requires
        rebind_decided(facts, mutation, digest, revision, change),
        request_id_valid(mutation.request_id@, 128),
        facts.receipt is None,
    ensures
        mutation.new_source_revision@.len() == 0 ==> only_told(
            change,
            EditRecipeWriteOutcome::InvalidSettings,
        ),
        mutation.new_source_revision@.len() > 0 ==> {
            &&& facts.current is None || facts.source is None ==> only_told(
                change,
                EditRecipeWriteOutcome::MissingPhoto,
            )
            &&& facts.current is Some && facts.source is Some ==> {
                let source = facts.source->0;
                let current = facts.current->0;
                let recipe = current.recipe->0;
                let there = source == (OriginalKind::Raw, true) && current.source_available;
                &&& source.0 != OriginalKind::Raw ==> only_told(
                    change,
                    EditRecipeWriteOutcome::UnsupportedPhoto,
                )
                &&& source.0 == OriginalKind::Raw && !there ==> only_told(
                    change,
                    EditRecipeWriteOutcome::Unavailable,
                )
                &&& there && current.recipe is None ==> only_told(
                    change,
                    EditRecipeWriteOutcome::MissingRecipe,
                )
                &&& there && current.recipe is Some && recipe.revision@
                    != mutation.expected_recipe_version@ ==> only_told(
                    change,
                    EditRecipeWriteOutcome::Conflict(current),
                )
                &&& there && current.recipe is Some && recipe.revision@
                    == mutation.expected_recipe_version@ ==> {
                    &&& current.current_source_revision@ != mutation.new_source_revision@
                        ==> only_told(change, EditRecipeWriteOutcome::SourceChanged(current))
                    &&& current.current_source_revision@ == mutation.new_source_revision@
                        && recipe.source_revision@ == mutation.new_source_revision@ ==> change is Ok
                        && change->Ok_0.outcome == EditRecipeWriteOutcome::Unchanged(recipe)
                        && change->Ok_0.recipe is None && change->Ok_0.receipt is Some
                        && change->Ok_0.receipt->0.outcome == EditRecipeReceiptOutcome::Unchanged
                    &&& current.current_source_revision@ == mutation.new_source_revision@
                        && recipe.source_revision@ != mutation.new_source_revision@
                        && stored_length(revision@) > 0 && stored_length(
                        mutation.new_source_revision@,
                    ) > 0 ==> change is Ok && change->Ok_0.outcome is Saved
                }
            }
        },
{
}

/// A rebound recipe is what it was but for its source and its revision: the Photo's
/// exposure and white balance stay. It is bound to the source that the request names,
/// which is the one that there is.
pub proof fn law_rebound_recipes_keep_their_settings(
    facts: RecipeFacts,
    mutation: RebindEditRecipe,
    digest: Seq<char>,
    revision: String,
    change: Result<EditRecipeChange, PersistenceError>,
)
    requires
        rebind_decided(facts, mutation, digest, revision, change),
        change is Ok,
        change->Ok_0.outcome is Saved,
    ensures
        ({
            let before = facts.current->0.recipe->0;
            let recipe = change->Ok_0.recipe->0;
            let receipt = change->Ok_0.receipt->0;
            &&& facts.receipt is None
            &&& facts.source == Some((OriginalKind::Raw, true))
            &&& facts.current is Some
            &&& facts.current->0.source_available
            &&& facts.current->0.recipe is Some
            &&& facts.current->0.current_source_revision@ == mutation.new_source_revision@
            &&& before.revision@ == mutation.expected_recipe_version@
            &&& before.source_revision@ != mutation.new_source_revision@
            &&& change->Ok_0.recipe is Some
            &&& change->Ok_0.outcome->Saved_0 == recipe
            &&& recipe.photo_id@ == mutation.photo_id@
            &&& recipe.revision@ == revision@
            &&& recipe.source_revision@ == mutation.new_source_revision@
            &&& recipe.settings.exposure_ev.bits == before.settings.exposure_ev.bits
            &&& recipe.settings.white_balance == before.settings.white_balance
            &&& change->Ok_0.receipt is Some
            &&& receipt.photo_id@ == mutation.photo_id@
            &&& receipt.payload_digest@ == digest
            &&& receipt.outcome == EditRecipeReceiptOutcome::Saved
            &&& receipt.revision@ == revision@
            &&& receipt.source_revision@ == mutation.new_source_revision@
            &&& receipt.exposure_ev.bits == before.settings.exposure_ev.bits
        }),
{
}

/// A recipe is read as it is stored: its revisions, its exposure, and its white balance
/// by the stored mode. The source is available where both the Original File and the
/// Photo are. A row that holds a part of a recipe is not read.
pub proof fn law_recipes_are_read_as_stored(row: StoredRecipe, photo_id: String)
    ensures
        ({
            let read = recipe_told(row, photo_id);
            &&& row.size < 0 || row.current_revision is None ==> read is None
            &&& row.revision is Some && row.exposure_ev is None ==> read is None
            &&& row.revision is None && row.exposure_ev is Some ==> read is None
            &&& read is Some ==> {
                let told = read->0.recipe->0;
                &&& read->0.current_source_revision@ == row.current_revision->0@
                &&& read->0.source_available == (row.original_available != 0 && row.photo_available
                    != 0)
                &&& read->0.recipe is Some == row.revision is Some
                &&& read->0.recipe is Some ==> {
                    &&& told.photo_id@ == photo_id@
                    &&& told.revision@ == row.revision->0@
                    &&& told.source_revision@ == row.source_revision->0@
                    &&& told.settings.exposure_ev == row.exposure_ev->0
                    &&& row.white_balance_mode->0@ == "as-shot"@ ==> told.settings.white_balance
                        == WhiteBalanceIntent::AsShot
                    &&& told.settings.white_balance
                        matches WhiteBalanceIntent::TemperatureTint {
                        temperature_kelvin,
                        tint_milli,
                    } ==> row.temperature_kelvin == Some(temperature_kelvin) && row.tint_milli
                        == Some(tint_milli) && row.white_balance_mode->0@ == "temperature-tint"@
                        && 1000 <= temperature_kelvin <= 40000 && -150000 <= tint_milli <= 150000
                }
            }
            &&& row.size >= 0 && row.current_revision is Some && row.revision is None
                && row.source_revision is None && row.exposure_ev is None && row.white_balance_mode
                is None ==> read is Some
            &&& row.size >= 0 && row.current_revision is Some && row.revision is Some
                && row.source_revision is Some && row.exposure_ev is Some && row.white_balance_mode
                is Some && row.white_balance_mode->0@ == "as-shot"@ && row.temperature_kelvin
                is None && row.tint_milli is None ==> read is Some
        }),
{
    reveal_strlit("as-shot");
    reveal_strlit("temperature-tint");
    assert("as-shot"@.len() != "temperature-tint"@.len());
}

/// The source of a Photo is told by its stored kind, and is available where both the
/// Original File and the Photo are.
pub proof fn law_sources_are_told_as_stored(
    stored: Option<StoredSource>,
    source: Result<Option<(OriginalKind, bool)>, PersistenceError>,
)
    requires
        call_ensures(photo_processing_source, (&stored,), source),
    ensures
        stored is None ==> source == Ok::<Option<(OriginalKind, bool)>, PersistenceError>(None),
        stored is Some ==> {
            let available = stored->0.original_available != 0 && stored->0.photo_available != 0;
            &&& stored->0.kind@ == "raw"@ ==> source == Ok::<
                Option<(OriginalKind, bool)>,
                PersistenceError,
            >(Some((OriginalKind::Raw, available)))
            &&& stored->0.kind@ == "jpeg"@ ==> source == Ok::<
                Option<(OriginalKind, bool)>,
                PersistenceError,
            >(Some((OriginalKind::Jpeg, available)))
            &&& stored->0.kind@ != "raw"@ && stored->0.kind@ != "jpeg"@ ==> source == Err::<
                Option<(OriginalKind, bool)>,
                PersistenceError,
            >(PersistenceError::Storage)
        },
{
    if stored is Some {
        law_kinds_are_stored_by_name(stored->0.kind@);
    }
}

/// A recipe is not read where its row cannot be, and a Photo that is not stored has none.
pub proof fn law_recipes_of_unknown_photos_are_none(
    row: Option<StoredRecipe>,
    photo_id: String,
    read: Result<Option<EditRecipeRead>, PersistenceError>,
)
    requires
        call_ensures(read_edit_recipe, (&row, &photo_id), read),
    ensures
        row is None ==> read == Ok::<Option<EditRecipeRead>, PersistenceError>(None),
        row is Some ==> (read is Ok <==> recipe_told(row->0, photo_id) is Some),
        row is Some && read is Ok ==> read->Ok_0 == recipe_told(row->0, photo_id),
        read is Err ==> read->Err_0 == PersistenceError::Storage,
{
}

/// A receipt tells the Recipe as it was answered.
pub proof fn law_receipts_tell_what_was_answered(
    receipt: EditRecipeReceipt,
    recipe: Result<EditRecipe, PersistenceError>,
    left: String,
    right: String,
    key: String,
    other: String,
)
    requires
        call_ensures(receipt_recipe, (&receipt,), recipe),
        call_ensures(edit_recipe_receipt_key, (&left,), key),
        call_ensures(edit_recipe_receipt_key, (&right,), other),
    ensures
        recipe matches Ok(told) ==> {
            &&& told.photo_id == receipt.photo_id
            &&& told.revision == receipt.revision
            &&& told.source_revision == receipt.source_revision
            &&& told.settings.exposure_ev == receipt.exposure_ev
            &&& intent_of(
                receipt.white_balance_mode@,
                receipt.temperature_kelvin,
                receipt.tint_milli,
            ) == Some(told.settings.white_balance)
        },
        recipe matches Err(error) ==> error is Storage,
        key@ == other@ <==> left@ == right@,
{
    reveal_strlit("edit_recipe_receipt:");
    let prefix = "edit_recipe_receipt:"@;
    if key@ == other@ {
        assert(left@ =~= key@.skip(prefix.len() as int));
        assert(right@ =~= other@.skip(prefix.len() as int));
    }
}

/// The digests of requests are those of texts that say everything that was asked for,
/// under the keys that receipts were always written with.
pub proof fn law_payloads_say_what_was_asked(
    save: SaveEditRecipe,
    exposure: String,
    digest: String,
    rebind: RebindEditRecipe,
    other: String,
)
    requires
        call_ensures(edit_recipe_payload_digest, (&save, &exposure), digest),
        call_ensures(edit_recipe_rebind_payload_digest, (&rebind,), other),
    ensures
        digest@ == text_digest(
            "{\"expected_recipe_revision\":"@ + json_opt_text(
                opt_text(save.expected_recipe_version),
            ) + ",\"expected_source_revision\":"@ + json_text(save.expected_source_revision@)
                + ",\"exposure_ev\":"@ + exposure@ + ",\"photo_id\":"@ + json_text(save.photo_id@)
                + ",\"white_balance\":"@ + (match save.settings.white_balance {
                WhiteBalanceIntent::AsShot => "\"as-shot\""@,
                WhiteBalanceIntent::TemperatureTint {
                    temperature_kelvin,
                    tint_milli,
                } => "{\"mode\":\"temperature-tint\",\"temperature_kelvin\":"@ + signed_decimal(
                    temperature_kelvin as int,
                ) + ",\"tint_milli\":"@ + signed_decimal(tint_milli as int) + "}"@,
            }) + "}"@,
        ),
        other@ == text_digest(
            "{\"expected_recipe_version\":"@ + json_text(rebind.expected_recipe_version@)
                + ",\"kind\":\"rebind\",\"new_source_revision\":"@ + json_text(
                rebind.new_source_revision@,
            ) + ",\"photo_id\":"@ + json_text(rebind.photo_id@) + "}"@,
        ),
{
}

} // verus!
