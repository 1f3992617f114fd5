use serde_json::{Number, Value};
use sha2::{Digest, Sha256};
use slipstream_state::binary::Real;
use slipstream_state::codec::OriginalKind;
use slipstream_state::edit_recipe::{
    edit_recipe_payload_digest, edit_recipe_rebind_payload_digest, edit_recipe_receipt_key,
    parse_white_balance_intent, photo_processing_source, read_edit_recipe, rebind_edit_recipe,
    receipt_recipe, save_edit_recipe, validate_edit_recipe_request_id, white_balance_intent_name,
    white_balance_intent_values, EditRecipe, EditRecipeRead, EditRecipeReceipt,
    EditRecipeReceiptOutcome, EditRecipeSettings, EditRecipeWriteOutcome, RebindEditRecipe,
    RecipeFacts, SaveEditRecipe, StoredRecipe, StoredSource, WhiteBalanceIntent,
};
use slipstream_state::error::PersistenceError;

fn text(value: &str) -> String {
    value.to_owned()
}

fn number(value: f64) -> Real {
    Real { bits: value.to_bits() }
}

fn as_shot(exposure: f64) -> EditRecipeSettings {
    EditRecipeSettings { exposure_ev: number(exposure), white_balance: WhiteBalanceIntent::AsShot }
}

fn exposure_text(settings: &EditRecipeSettings) -> String {
    let value = f64::from_bits(settings.exposure_ev.bits);
    Value::Number(Number::from_f64(value).unwrap()).to_string()
}

/// One RAW Photo, its recipe and the receipts of its requests.
struct Easel {
    read: EditRecipeRead,
    receipts: Vec<(String, EditRecipeReceipt)>,
    made: u32,
}

impl Easel {
    fn new(source: &str) -> Easel {
        Easel {
            read: EditRecipeRead {
                recipe: None,
                current_source_revision: text(source),
                source_available: true,
            },
            receipts: Vec::new(),
            made: 0,
        }
    }

    fn facts(&self, request_id: &str) -> RecipeFacts {
        let key = edit_recipe_receipt_key(&text(request_id));
        RecipeFacts {
            receipt: self.receipts.iter().find(|(k, _)| *k == key).map(|(_, r)| r.clone()),
            current: Some(self.read.clone()),
            source: Some((OriginalKind::Raw, self.read.source_available)),
        }
    }

    fn keep(&mut self, request_id: &str, recipe: Option<EditRecipe>, receipt: Option<EditRecipeReceipt>) {
        if let Some(recipe) = recipe {
            self.read.recipe = Some(recipe);
        }
        if let Some(receipt) = receipt {
            self.receipts.push((edit_recipe_receipt_key(&text(request_id)), receipt));
        }
    }

    fn save(&mut self, mutation: &SaveEditRecipe) -> EditRecipeWriteOutcome {
        let exposure = exposure_text(&mutation.settings);
        self.made += 1;
        let revision = format!("revision-{}", self.made);
        let facts = self.facts(&mutation.request_id);
        let change = save_edit_recipe(&facts, mutation, &exposure, &revision).unwrap();
        self.keep(&mutation.request_id, change.recipe, change.receipt);
        change.outcome
    }

    fn rebind(&mut self, mutation: &RebindEditRecipe) -> EditRecipeWriteOutcome {
        self.made += 1;
        let revision = format!("revision-{}", self.made);
        let facts = self.facts(&mutation.request_id);
        let change = rebind_edit_recipe(&facts, mutation, &revision).unwrap();
        self.keep(&mutation.request_id, change.recipe, change.receipt);
        change.outcome
    }
}

fn save(request_id: &str, version: Option<&str>, source: &str, exposure: f64) -> SaveEditRecipe {
    SaveEditRecipe {
        photo_id: text("raw-photo"),
        request_id: text(request_id),
        expected_recipe_version: version.map(text),
        expected_source_revision: text(source),
        settings: as_shot(exposure),
    }
}

#[test]
fn edit_recipe_compare_and_set_rebind_and_read_model_are_guarded() {
    let mut easel = Easel::new("source-17-1000");
    let recipe = match easel.save(&save("first-save", None, "source-17-1000", 0.0)) {
        EditRecipeWriteOutcome::Saved(recipe) => recipe,
        outcome => panic!("first compare-and-set should save, got {outcome:?}"),
    };
    assert!(matches!(
        easel.save(&save("concurrent-save", None, "source-17-1000", 0.0)),
        EditRecipeWriteOutcome::Conflict(EditRecipeRead { recipe: Some(_), .. })
    ));
    assert_eq!(f64::from_bits(recipe.settings.exposure_ev.bits), 0.0);
    assert_eq!(
        easel.save(&save("unchanged-save", Some(&recipe.revision), "source-17-1000", 0.0)),
        EditRecipeWriteOutcome::Unchanged(recipe.clone())
    );
    assert_eq!(
        easel.save(&save("first-save", None, "source-17-1000", 0.0)),
        EditRecipeWriteOutcome::Replayed(recipe.clone())
    );
    assert_eq!(
        easel.save(&save("first-save", None, "source-17-1000", 1.0)),
        EditRecipeWriteOutcome::RequestConflict
    );

    easel.read.current_source_revision = text("source-18-2000");
    assert!(matches!(
        easel.save(&save("stale-save", Some(&recipe.revision), "source-17-1000", 1.0)),
        EditRecipeWriteOutcome::SourceChanged(EditRecipeRead { recipe: Some(_), .. })
    ));
    assert!(matches!(
        easel.save(&save("unbound-save", Some(&recipe.revision), "source-18-2000", 1.0)),
        EditRecipeWriteOutcome::RequiresRebind(_)
    ));
    let rebind = RebindEditRecipe {
        photo_id: text("raw-photo"),
        request_id: text("rebind-1"),
        expected_recipe_version: recipe.revision.clone(),
        new_source_revision: text("source-18-2000"),
    };
    let rebound = match easel.rebind(&rebind) {
        EditRecipeWriteOutcome::Saved(recipe) => recipe,
        outcome => panic!("explicit rebind should save, got {outcome:?}"),
    };
    assert_ne!(rebound.revision, recipe.revision);
    assert_eq!(rebound.source_revision, "source-18-2000");
    assert_eq!(rebound.settings, recipe.settings);

    assert!(matches!(
        easel.save(&save("advance-save", Some(&rebound.revision), "source-18-2000", 0.5)),
        EditRecipeWriteOutcome::Saved(_)
    ));
    assert_eq!(
        easel.save(&save("first-save", None, "source-17-1000", 0.0)),
        EditRecipeWriteOutcome::Replayed(recipe.clone())
    );
    assert_eq!(easel.rebind(&rebind), EditRecipeWriteOutcome::Replayed(rebound.clone()));
    let other = RebindEditRecipe {
        expected_recipe_version: rebound.revision.clone(),
        new_source_revision: rebound.source_revision.clone(),
        ..rebind
    };
    assert_eq!(easel.rebind(&other), EditRecipeWriteOutcome::RequestConflict);
    assert!(matches!(
        easel.save(&save("after-rebind-save", Some(&recipe.revision), "source-18-2000", 2.0)),
        EditRecipeWriteOutcome::Conflict(_)
    ));
}

#[test]
fn recipes_without_a_revision_before_a_nul_are_not_stored() {
    let easel = Easel::new("\0x");
    let mutation = save("nul-save", None, "\0x", 0.0);
    let exposure = exposure_text(&mutation.settings);
    let facts = easel.facts(&mutation.request_id);
    assert!(matches!(
        save_edit_recipe(&facts, &mutation, &exposure, &text("revision-1")),
        Err(PersistenceError::Storage)
    ));
}

#[test]
fn pre_upgrade_receipts_replay_with_the_original_digest_formula() {
    let mut payload = serde_json::Map::new();
    payload.insert(text("photo_id"), Value::String(text("raw-photo")));
    payload.insert(text("expected_recipe_revision"), Value::Null);
    payload.insert(
        text("expected_source_revision"),
        Value::String(text("legacy-source-revision")),
    );
    payload.insert(text("exposure_ev"), Value::Number(Number::from_f64(0.25).unwrap()));
    payload.insert(text("white_balance"), Value::String(text("as-shot")));
    let bytes = serde_json::to_vec(&Value::Object(payload)).unwrap();
    let digest: String =
        Sha256::digest(bytes).iter().map(|byte| format!("{byte:02x}")).collect();
    let mutation = SaveEditRecipe {
        photo_id: text("raw-photo"),
        request_id: text("legacy-save"),
        expected_recipe_version: None,
        expected_source_revision: text("legacy-source-revision"),
        settings: as_shot(0.25),
    };
    assert_eq!(edit_recipe_payload_digest(&mutation, &text("0.25")), digest);
    let receipt = EditRecipeReceipt {
        photo_id: text("raw-photo"),
        payload_digest: digest,
        outcome: EditRecipeReceiptOutcome::Saved,
        revision: text("legacy-recipe-version"),
        source_revision: text("legacy-source-revision"),
        exposure_ev: number(0.25),
        white_balance_mode: text("as-shot"),
        temperature_kelvin: None,
        tint_milli: None,
    };
    let mut easel = Easel::new("another-source");
    easel.receipts.push((text("edit_recipe_receipt:legacy-save"), receipt));
    assert_eq!(
        easel.save(&mutation),
        EditRecipeWriteOutcome::Replayed(EditRecipe {
            photo_id: text("raw-photo"),
            revision: text("legacy-recipe-version"),
            source_revision: text("legacy-source-revision"),
            settings: as_shot(0.25),
        })
    );
}

#[test]
fn edit_recipe_writes_reject_missing_unavailable_and_non_raw_photos() {
    let read = |available: bool| {
        Some(EditRecipeRead {
            recipe: None,
            current_source_revision: text("source"),
            source_available: available,
        })
    };
    let outcome = |current: Option<EditRecipeRead>, source: Option<(OriginalKind, bool)>| {
        let facts = RecipeFacts { receipt: None, current, source };
        save_edit_recipe(&facts, &save("request", None, "source", 0.0), &text("d"), &text("r"))
            .unwrap()
            .outcome
    };
    assert_eq!(
        outcome(read(false), Some((OriginalKind::Raw, false))),
        EditRecipeWriteOutcome::Unavailable
    );
    assert_eq!(
        outcome(read(true), Some((OriginalKind::Jpeg, true))),
        EditRecipeWriteOutcome::UnsupportedPhoto
    );
    assert_eq!(outcome(None, None), EditRecipeWriteOutcome::MissingPhoto);
    let stored = |kind: &str, original_available: i64, photo_available: i64| {
        photo_processing_source(&Some(StoredSource {
            kind: text(kind),
            original_available,
            photo_available,
        }))
    };
    assert!(matches!(stored("raw", 1, 1), Ok(Some((OriginalKind::Raw, true)))));
    assert!(matches!(stored("jpeg", 1, 0), Ok(Some((OriginalKind::Jpeg, false)))));
    assert!(matches!(stored("raw", 0, 1), Ok(Some((OriginalKind::Raw, false)))));
    assert!(matches!(stored("tiff", 1, 1), Err(PersistenceError::Storage)));
    assert!(matches!(photo_processing_source(&None), Ok(None)));
}

#[test]
fn rebinding_needs_a_recipe() {
    let mut easel = Easel::new("source");
    let rebind = RebindEditRecipe {
        photo_id: text("raw-photo"),
        request_id: text("rebind"),
        expected_recipe_version: text("v"),
        new_source_revision: text("source"),
    };
    assert_eq!(easel.rebind(&rebind), EditRecipeWriteOutcome::MissingRecipe);
    easel.save(&save("first", None, "source", 0.0));
    assert!(matches!(easel.rebind(&rebind), EditRecipeWriteOutcome::Conflict(_)));
}

#[test]
fn digests_tell_every_payload_apart() {
    let base = save("r", None, "s", 0.0);
    let digest = |mutation: &SaveEditRecipe| {
        edit_recipe_payload_digest(mutation, &exposure_text(&mutation.settings))
    };
    let first = digest(&base);
    assert_eq!(first.len(), 64);
    assert_eq!(digest(&SaveEditRecipe { request_id: text("other"), ..base.clone() }), first);
    let tint = WhiteBalanceIntent::TemperatureTint { temperature_kelvin: 5_000, tint_milli: -3 };
    for other in [
        SaveEditRecipe { photo_id: text("x"), ..base.clone() },
        SaveEditRecipe { expected_recipe_version: Some(text("null")), ..base.clone() },
        SaveEditRecipe { expected_source_revision: text("s\","), ..base.clone() },
        SaveEditRecipe { settings: as_shot(0.5), ..base.clone() },
        SaveEditRecipe {
            settings: EditRecipeSettings { exposure_ev: number(0.0), white_balance: tint },
            ..base.clone()
        },
    ] {
        assert_ne!(digest(&other), first);
    }
    let rebind = RebindEditRecipe {
        photo_id: text("p"),
        request_id: text("r"),
        expected_recipe_version: text("v"),
        new_source_revision: text("s"),
    };
    let mut payload = serde_json::Map::new();
    payload.insert(text("kind"), Value::String(text("rebind")));
    payload.insert(text("photo_id"), Value::String(text("p")));
    payload.insert(text("expected_recipe_version"), Value::String(text("v")));
    payload.insert(text("new_source_revision"), Value::String(text("s")));
    let bytes = serde_json::to_vec(&Value::Object(payload)).unwrap();
    let expected: String =
        Sha256::digest(bytes).iter().map(|byte| format!("{byte:02x}")).collect();
    assert_eq!(edit_recipe_rebind_payload_digest(&rebind), expected);
    let swapped = RebindEditRecipe {
        expected_recipe_version: text("s"),
        new_source_revision: text("v"),
        ..rebind
    };
    assert_ne!(edit_recipe_rebind_payload_digest(&swapped), expected);
}

#[test]
fn intents_read_back_within_their_bounds() {
    let tint = WhiteBalanceIntent::TemperatureTint { temperature_kelvin: 5_500, tint_milli: 12 };
    for intent in [WhiteBalanceIntent::AsShot, tint] {
        let (kelvin, milli) = white_balance_intent_values(intent);
        let name = text(white_balance_intent_name(intent));
        assert_eq!(parse_white_balance_intent(&name, kelvin, milli), Some(intent));
        assert!(intent.within_payload_bounds());
    }
    assert_eq!(white_balance_intent_name(tint), "temperature-tint");
    assert_eq!(parse_white_balance_intent(&text("as-shot"), Some(5_000), None), None);
    assert_eq!(parse_white_balance_intent(&text("daylight"), None, None), None);
    let cold = WhiteBalanceIntent::TemperatureTint { temperature_kelvin: 1, tint_milli: 0 };
    assert!(!cold.within_payload_bounds());
}

#[test]
fn stored_recipes_are_read_whole_or_not_at_all() {
    let row = StoredRecipe {
        size: 17,
        original_available: 1,
        photo_available: 1,
        revision: Some(text("v1")),
        source_revision: Some(text("s1")),
        exposure_ev: Some(number(0.5)),
        white_balance_mode: Some(text("as-shot")),
        temperature_kelvin: None,
        tint_milli: None,
        current_revision: Some(text("s2")),
    };
    let read = read_edit_recipe(&Some(row.clone()), &text("p")).unwrap().unwrap();
    assert_eq!(read.current_source_revision, "s2");
    assert!(read.source_available);
    assert_eq!(read.recipe.unwrap().settings, as_shot(0.5));
    let gone = StoredRecipe { photo_available: 0, ..row.clone() };
    assert!(!read_edit_recipe(&Some(gone), &text("p")).unwrap().unwrap().source_available);
    let none = StoredRecipe {
        revision: None,
        source_revision: None,
        exposure_ev: None,
        white_balance_mode: None,
        ..row.clone()
    };
    assert!(read_edit_recipe(&Some(none), &text("p")).unwrap().unwrap().recipe.is_none());
    let broken = StoredRecipe { size: -1, ..row };
    assert!(matches!(
        read_edit_recipe(&Some(broken), &text("p")),
        Err(PersistenceError::Storage)
    ));
    assert!(read_edit_recipe(&None, &text("p")).unwrap().is_none());
}

#[test]
fn receipts_that_cannot_be_read_are_refused() {
    let receipt = EditRecipeReceipt {
        photo_id: text("p"),
        payload_digest: text("d"),
        outcome: EditRecipeReceiptOutcome::Unchanged,
        revision: text("v"),
        source_revision: text("s"),
        exposure_ev: number(1.0),
        white_balance_mode: text("daylight"),
        temperature_kelvin: None,
        tint_milli: None,
    };
    assert!(matches!(receipt_recipe(&receipt), Err(PersistenceError::Storage)));
    let readable = EditRecipeReceipt { white_balance_mode: text("as-shot"), ..receipt };
    assert_eq!(receipt_recipe(&readable).unwrap().settings, as_shot(1.0));
}

#[test]
fn request_identities_are_short_and_printable() {
    assert!(validate_edit_recipe_request_id(&text("request-1")));
    assert!(!validate_edit_recipe_request_id(&text("")));
    assert!(!validate_edit_recipe_request_id(&text("a\nb")));
    assert!(validate_edit_recipe_request_id(&"x".repeat(128)));
    assert!(!validate_edit_recipe_request_id(&"x".repeat(129)));
    assert!(!validate_edit_recipe_request_id(&"é".repeat(65)));
}
