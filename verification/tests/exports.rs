use slipstream_state::binary::Real;
use slipstream_state::codec::OriginalKind;
use slipstream_state::edit_recipe::{
    EditRecipe, EditRecipeRead, EditRecipeSettings, WhiteBalanceIntent,
};
use slipstream_state::error::PersistenceError;
use slipstream_state::export::{
    export_expiry_tombstone_key, export_publication_claim_key, export_receipt_key,
    export_record_from_row, export_row, export_unix_seconds, validate_export_request_id,
    ExportArtifactFacts, ExportAttempt, ExportRow, ExportState, StoredExportNumbers,
};
use slipstream_state::export_change::{
    begin_export_attempt, cancel_export, claim_export_publication, export_payload_digest,
    export_records, record_export_source, resolve_export_submission, retry_export, settle_export,
    settle_publication_claim, submit_export, valid_attempt, ExportReceipt, ExportRetryOutcome,
    ExportSettlement, ExportSubmission, ExportSubmissionResolution, ExportSubmitOutcome,
    RetryFacts, SubmissionFacts,
};
use slipstream_state::export_store::{
    acquire_export_lease, export_hold, list_photo_exports, release_export_lease,
    renew_export_lease, reservable, reserved_retained_bytes, sweep_export_expiry, time_to_store,
    unfinished_exports, ExportHold, ExportLease, ExportLeaseOutcome, EXPORT_LEASE_STALE_SECONDS,
    EXPORT_LIST_LIMIT,
};
use slipstream_state::limits::{EXPORT_RETENTION_SECONDS, MAXIMUM_EXPORT_BYTES};

const ALLOWANCE: u64 = 8 * 1024 * 1024 * 1024;
const NOW: u64 = 1_000_000;

fn text(value: &str) -> String {
    value.to_owned()
}

fn half() -> Real {
    Real { bits: 0.5_f64.to_bits() }
}

/// The Exports of a library, with what the recipe of its RAW Photo is.
struct Desk {
    rows: Vec<ExportRow>,
    leases: Vec<ExportLease>,
    receipts: Vec<(String, ExportReceipt)>,
    tombstones: Vec<String>,
    made: u32,
}

impl Desk {
    fn new() -> Desk {
        Desk {
            rows: Vec::new(),
            leases: Vec::new(),
            receipts: Vec::new(),
            tombstones: Vec::new(),
            made: 0,
        }
    }

    fn recipe(&self) -> EditRecipeRead {
        EditRecipeRead {
            recipe: Some(EditRecipe {
                photo_id: text("raw-photo"),
                revision: text("recipe-rev-1"),
                source_revision: text("source-1"),
                settings: EditRecipeSettings {
                    exposure_ev: half(),
                    white_balance: WhiteBalanceIntent::AsShot,
                },
            }),
            current_source_revision: text("source-1"),
            source_available: true,
        }
    }

    fn holds(&self) -> Vec<ExportHold> {
        self.rows.iter().map(export_hold).collect()
    }

    fn find(&self, id: &str) -> Option<ExportRow> {
        self.rows.iter().find(|row| row.id == id).cloned()
    }

    fn receipt(&self, key: &str) -> Option<ExportReceipt> {
        self.receipts.iter().find(|(k, _)| k == key).map(|(_, receipt)| receipt.clone())
    }

    fn keep(&mut self, row: Option<ExportRow>) {
        if let Some(row) = row {
            match self.rows.iter().position(|known| known.id == row.id) {
                Some(at) => self.rows[at] = row,
                None => self.rows.push(row),
            }
        }
    }

    fn submit(&mut self, submission: &ExportSubmission) -> ExportSubmitOutcome {
        let key = export_receipt_key(&submission.photo_id, &submission.request_id);
        let receipt = self.receipt(&key);
        let facts = SubmissionFacts {
            receipt_row: receipt.as_ref().and_then(|receipt| self.find(&receipt.export_id)),
            receipt,
            receipt_digest: Some("c".repeat(64)),
            current: match submission.photo_id.as_str() {
                "absent-photo" => None,
                _ => Some(self.recipe()),
            },
            source: match submission.photo_id.as_str() {
                "raw-photo" => Some((OriginalKind::Raw, true)),
                "jpeg-photo" => Some((OriginalKind::Jpeg, true)),
                _ => None,
            },
            capture: Some("c".repeat(64)),
            recapture: Some("c".repeat(64)),
            holds: self.holds(),
            leases: self.leases.clone(),
        };
        self.made += 1;
        let token = format!("token-{}", self.made);
        let change = submit_export(&facts, submission, NOW, &token).unwrap();
        self.keep(change.row);
        if let Some(receipt) = change.receipt {
            self.receipts.push((key, receipt));
        }
        change.outcome
    }

    fn created(&mut self, request_id: &str) -> ExportRow {
        match self.submit(&submission(request_id)) {
            ExportSubmitOutcome::Created(record) => self.find(&record.id).unwrap(),
            _ => panic!("submission must be created"),
        }
    }

    fn retry(&mut self, id: &str, request_id: &str) -> ExportRetryOutcome {
        let current = self.find(id);
        let key = export_receipt_key(
            &current.as_ref().map(|row| row.photo_id.clone()).unwrap_or_default(),
            &text(request_id),
        );
        let facts = RetryFacts {
            current,
            digest: Some("c".repeat(64)),
            tombstone: self.tombstones.iter().any(|known| known == id),
            receipt: self.receipt(&key),
            recipe: Some(self.recipe()),
            holds: self.holds(),
            leases: self.leases.clone(),
        };
        let change = retry_export(
            &facts,
            &text(id),
            &text(request_id),
            &"b".repeat(64),
            ALLOWANCE,
            NOW,
        )
        .unwrap();
        self.keep(change.row);
        if let Some(receipt) = change.receipt {
            self.receipts.push((key, receipt));
        }
        change.outcome
    }
}

fn submission(request_id: &str) -> ExportSubmission {
    ExportSubmission {
        request_id: text(request_id),
        photo_id: text("raw-photo"),
        source_profile_id: text("sony-ilce-7rm5-arw"),
        policy_id: "a".repeat(64),
        bundle_id: "b".repeat(64),
        expected_recipe_revision: text("recipe-rev-1"),
        expected_source_revision: text("source-1"),
        retained_output_bytes_max: ALLOWANCE,
        payload_digest: text("payload-1"),
    }
}

fn succeeded(at: u64) -> ExportSettlement {
    ExportSettlement::Succeeded {
        artifact_size: 4096,
        artifact_sha256: "d".repeat(64),
        published_at: at,
        artifact_width: 16,
        artifact_height: 9,
        artifact_profile_identity: "e".repeat(64),
    }
}

fn digest() -> Option<String> {
    Some("c".repeat(64))
}

#[test]
fn export_submit_captures_snapshot_and_replays_identity_exactly() {
    let mut desk = Desk::new();
    let record = match desk.submit(&submission("request-1")) {
        ExportSubmitOutcome::Created(record) => record,
        _ => panic!("first submission must be created"),
    };
    assert_eq!(record.state, ExportState::Queued);
    assert_eq!(record.snapshot.photo_id, "raw-photo");
    assert_eq!(record.snapshot.recipe_revision, "recipe-rev-1");
    assert_eq!(f64::from_bits(record.snapshot.settings.exposure_ev.bits), 0.5);
    assert_eq!(record.snapshot.source_revision, "source-1");
    assert_eq!(record.snapshot.source_profile_id, "sony-ilce-7rm5-arw");
    assert_eq!(record.snapshot.workload, "development-tiff");
    assert_eq!(record.attempt, None);
    assert_eq!(record.snapshot.recipe_digest, "c".repeat(64));
    assert!(record.settled_at.is_none() && record.retain_until.is_none());
    assert_eq!(record.source, None);

    match desk.submit(&submission("request-1")) {
        ExportSubmitOutcome::Existing(replayed) => assert_eq!(replayed.id, record.id),
        _ => panic!("identical replay must resolve to the existing Export"),
    }
    let other = ExportSubmission {
        expected_recipe_revision: text("other-revision"),
        payload_digest: text("payload-2"),
        ..submission("request-1")
    };
    assert_eq!(desk.submit(&other), ExportSubmitOutcome::RequestConflict);
    let stale = ExportSubmission {
        expected_recipe_revision: text("older-recipe-rev"),
        ..submission("request-2")
    };
    match desk.submit(&stale) {
        ExportSubmitOutcome::RecipeConflict(facts) => {
            assert_eq!(facts.recipe.as_ref().unwrap().revision, "recipe-rev-1")
        }
        _ => panic!("stale recipe revision must conflict"),
    }
    let changed = ExportSubmission {
        expected_source_revision: text("source-2"),
        ..submission("request-3")
    };
    assert!(matches!(desk.submit(&changed), ExportSubmitOutcome::SourceChanged(_)));
    let jpeg = ExportSubmission { photo_id: text("jpeg-photo"), ..submission("request-4") };
    assert_eq!(desk.submit(&jpeg), ExportSubmitOutcome::UnsupportedPhoto);
    let absent = ExportSubmission { photo_id: text("absent-photo"), ..submission("request-5") };
    assert_eq!(desk.submit(&absent), ExportSubmitOutcome::UnknownPhoto);
    assert_eq!(desk.rows.len(), 1);
}

#[test]
fn export_settle_cancel_race_settles_exactly_once_and_retry_rearms() {
    let mut desk = Desk::new();
    let cancelled = desk.created("request-cancel");
    let update = cancel_export(&Some(cancelled.clone()), &digest(), NOW).unwrap();
    let record = update.record.unwrap();
    assert_eq!(record.state, ExportState::Cancelled);
    assert!(record.settled_at.is_some());
    assert!(record.retain_until.is_some());
    desk.keep(update.row);
    let again = cancel_export(&desk.find(&cancelled.id), &digest(), NOW + 9).unwrap();
    assert!(again.row.is_none());
    let again = again.record.unwrap();
    assert_eq!(again.state, ExportState::Cancelled);
    assert_eq!(again.settled_at, record.settled_at);
    let late = settle_export(&desk.find(&cancelled.id), &digest(), &succeeded(NOW)).unwrap();
    assert!(late.row.is_none());
    assert_eq!(late.record.unwrap().state, ExportState::Cancelled);

    let failed = desk.created("request-failed");
    let update = settle_export(
        &Some(failed.clone()),
        &digest(),
        &ExportSettlement::Failed {
            outcome: text("processing attempt did not complete: engine-failed"),
            settled_at: NOW,
        },
    )
    .unwrap();
    assert_eq!(update.record.unwrap().state, ExportState::Failed);
    desk.keep(update.row);
    let record = match desk.retry(&failed.id, "retry-1") {
        ExportRetryOutcome::Retried(record) => record,
        _ => panic!("failed Export must retry"),
    };
    assert_eq!(record.state, ExportState::Queued);
    assert_eq!(record.outcome, None);
    assert_eq!(record.attempt, None);
    assert_eq!(record.snapshot.recipe_revision, "recipe-rev-1");
    assert!(matches!(desk.retry(&failed.id, "retry-1"), ExportRetryOutcome::Replayed(_)));
    let queued = desk.created("request-queued");
    assert_eq!(desk.retry(&queued.id, "retry-1"), ExportRetryOutcome::RequestConflict);
    assert_eq!(desk.retry(&queued.id, "retry-2"), ExportRetryOutcome::NotRetriable);
    assert_eq!(desk.retry("never", "retry-3"), ExportRetryOutcome::Unknown);
    desk.tombstones.push(text("gone"));
    assert_eq!(desk.retry("gone", "retry-4"), ExportRetryOutcome::Expired);
}

#[test]
fn export_capacity_leases_and_expiry_refuse_before_acceptance() {
    let mut desk = Desk::new();
    let full = ExportSubmission {
        retained_output_bytes_max: 1024,
        ..submission("request-full")
    };
    assert_eq!(desk.submit(&full), ExportSubmitOutcome::RetainedOutputFull);
    let row = desk.created("request-published");
    let published_at = NOW;
    let update = settle_export(&Some(row.clone()), &digest(), &succeeded(published_at)).unwrap();
    let settled = update.record.clone().unwrap();
    desk.keep(update.row);
    assert_eq!(settled.state, ExportState::Succeeded);
    let artifact = settled.artifact.clone().unwrap();
    assert_eq!(
        artifact,
        ExportArtifactFacts {
            size: 4096,
            sha256: "d".repeat(64),
            expires_at: published_at + EXPORT_RETENTION_SECONDS,
            width: 16,
            height: 9,
            profile_identity: "e".repeat(64),
        }
    );
    assert_eq!(settled.retain_until, Some(published_at + EXPORT_RETENTION_SECONDS));

    let after_retention = published_at + EXPORT_RETENTION_SECONDS + 1;
    let current = desk.find(&row.id);
    let lease_id = match acquire_export_lease(
        &current,
        &digest(),
        &mut desk.leases,
        &row.id,
        after_retention - 3600,
        &text("lease-token"),
    )
    .unwrap()
    {
        ExportLeaseOutcome::Acquired { lease_id, artifact: leased } => {
            assert_eq!(leased, artifact);
            lease_id
        }
        _ => panic!("a live artifact must lease"),
    };
    let sweep = sweep_export_expiry(&desk.rows, &desk.leases, after_retention);
    assert!(sweep.result.record_expiry_ids.is_empty());
    assert!(sweep.rows.iter().any(|kept| kept.id == row.id));
    assert!(release_export_lease(&mut desk.leases, &lease_id));
    assert!(!release_export_lease(&mut desk.leases, &lease_id));
    let sweep = sweep_export_expiry(&desk.rows, &desk.leases, after_retention);
    assert_eq!(sweep.result.record_expiry_ids, vec![row.id.clone()]);
    assert!(sweep.rows.is_empty());
    desk.rows = sweep.rows;
    assert_eq!(desk.submit(&submission("request-published")), ExportSubmitOutcome::Expired);
}

#[test]
fn leases_hold_what_is_downloaded_until_they_are_stale() {
    let mut desk = Desk::new();
    let row = desk.created("request");
    desk.keep(settle_export(&Some(row.clone()), &digest(), &succeeded(NOW)).unwrap().row);
    desk.leases.push(ExportLease {
        id: text("old"),
        export_id: row.id.clone(),
        created_at: NOW,
    });
    let end = NOW + EXPORT_RETENTION_SECONDS;
    let stale = sweep_export_expiry(&desk.rows, &desk.leases, end + 1);
    assert_eq!(stale.result.record_expiry_ids, vec![row.id.clone()]);
    assert!(stale.leases.is_empty());
    assert!(renew_export_lease(&mut desk.leases, &text("old"), end));
    assert!(!renew_export_lease(&mut desk.leases, &text("none"), end));
    let renewed = sweep_export_expiry(&desk.rows, &desk.leases, end + 1);
    assert!(renewed.result.record_expiry_ids.is_empty());
    assert!(end + 1 < end + EXPORT_LEASE_STALE_SECONDS);
}

#[test]
fn unknown_exports_have_no_lease() {
    let mut leases = Vec::new();
    assert_eq!(
        acquire_export_lease(&None, &None, &mut leases, &text("x"), NOW, &text("t")).unwrap(),
        ExportLeaseOutcome::Unknown
    );
    let mut desk = Desk::new();
    let row = desk.created("request");
    assert_eq!(
        acquire_export_lease(
            &Some(row.clone()),
            &digest(),
            &mut leases,
            &text("x"),
            NOW,
            &text("t")
        )
        .unwrap(),
        ExportLeaseOutcome::Unknown
    );
    let published = settle_export(&Some(row), &digest(), &succeeded(NOW)).unwrap().row;
    assert_eq!(
        acquire_export_lease(
            &published,
            &digest(),
            &mut leases,
            &text("x"),
            NOW + EXPORT_RETENTION_SECONDS,
            &text("t")
        )
        .unwrap(),
        ExportLeaseOutcome::Expired
    );
    assert!(leases.is_empty());
}

#[test]
fn unfinished_work_reserves_the_largest_output() {
    let mut desk = Desk::new();
    desk.created("one");
    assert_eq!(reserved_retained_bytes(&desk.holds(), &desk.leases, NOW).unwrap(), MAXIMUM_EXPORT_BYTES);
    assert!(reservable(&desk.holds(), &desk.leases, NOW, 2 * MAXIMUM_EXPORT_BYTES).unwrap());
    assert!(!reservable(&desk.holds(), &desk.leases, NOW, 2 * MAXIMUM_EXPORT_BYTES - 1).unwrap());
    let row = desk.rows[0].clone();
    desk.keep(settle_export(&Some(row), &digest(), &succeeded(NOW)).unwrap().row);
    assert_eq!(reserved_retained_bytes(&desk.holds(), &desk.leases, NOW).unwrap(), 4096);
}

#[test]
fn attempts_and_sources_are_recorded_before_a_settlement() {
    let mut desk = Desk::new();
    let row = desk.created("request");
    let attempt = ExportAttempt { incarnation: "9".repeat(32), sequence: 3 };
    assert!(valid_attempt(&attempt));
    assert!(!valid_attempt(&ExportAttempt { incarnation: text(""), sequence: 3 }));
    let update = begin_export_attempt(&Some(row.clone()), &digest(), &attempt).unwrap();
    let record = update.record.clone().unwrap();
    assert_eq!(record.state, ExportState::Running);
    assert_eq!(record.attempt, Some(attempt));
    desk.keep(update.row);
    let update = record_export_source(&desk.find(&row.id), &digest(), 17, &"f".repeat(64)).unwrap();
    let record = update.record.clone().unwrap();
    assert_eq!(record.source.as_ref().unwrap().size, 17);
    desk.keep(update.row);
    assert_eq!(unfinished_exports(&desk.rows).len(), 1);
    desk.keep(cancel_export(&desk.find(&row.id), &digest(), NOW).unwrap().row);
    assert!(unfinished_exports(&desk.rows).is_empty());
    assert!(cancel_export(&None, &digest(), NOW).unwrap().record.is_none());
}

#[test]
fn submissions_are_resolved_by_their_receipt() {
    let mut desk = Desk::new();
    let row = desk.created("request");
    let key = export_receipt_key(&text("raw-photo"), &text("request"));
    let receipt = desk.receipt(&key);
    match resolve_export_submission(&receipt, &Some(row.clone()), &digest(), &text("payload-1")) {
        Ok(Some(ExportSubmissionResolution::Existing(record))) => assert_eq!(record.id, row.id),
        _ => panic!("the receipt tells the Export"),
    }
    assert!(matches!(
        resolve_export_submission(&receipt, &Some(row.clone()), &digest(), &text("payload-2")),
        Ok(Some(ExportSubmissionResolution::Conflict))
    ));
    assert!(matches!(
        resolve_export_submission(&receipt, &None, &digest(), &text("payload-1")),
        Ok(Some(ExportSubmissionResolution::Expired))
    ));
    assert!(matches!(
        resolve_export_submission(&None, &None, &digest(), &text("payload-1")),
        Ok(None)
    ));
    let mut partial = row;
    partial.artifact_size = Some(7);
    assert!(matches!(
        resolve_export_submission(&receipt, &Some(partial.clone()), &digest(), &text("payload-1")),
        Err(PersistenceError::Storage)
    ));
    assert!(matches!(
        resolve_export_submission(&receipt, &Some(partial), &digest(), &text("payload-2")),
        Ok(Some(ExportSubmissionResolution::Conflict))
    ));
    assert_eq!(export_payload_digest(&submission("request")), "payload-1");
}

#[test]
fn partial_rows_are_never_told() {
    let mut desk = Desk::new();
    let row = desk.created("request");
    assert!(export_record_from_row(&row, &digest()).is_ok());
    let storage = |row: &ExportRow, digest: &Option<String>| {
        matches!(export_record_from_row(row, digest), Err(PersistenceError::Storage))
    };
    assert!(storage(&row, &None));
    assert!(storage(&row, &Some(text("other"))));
    assert!(storage(&ExportRow { artifact_size: Some(1), ..row.clone() }, &digest()));
    assert!(storage(&ExportRow { attempt_sequence: Some(1), ..row.clone() }, &digest()));
    assert!(storage(&ExportRow { source_size: Some(1), ..row.clone() }, &digest()));
    assert_eq!(export_records(&vec![row.clone()], &vec![digest()]).unwrap().len(), 1);
    assert!(export_records(&vec![row], &vec![None]).is_err());
}

#[test]
fn stored_numbers_are_read_as_they_are_meant() {
    let stored = StoredExportNumbers {
        state: text("queued"),
        source_size: None,
        attempt_sequence: Some(2),
        artifact_size: None,
        artifact_expires_at: None,
        artifact_width: None,
        artifact_height: None,
        created_at: 5,
        settled_at: None,
        retain_until: None,
    };
    let numbers = export_row(&stored).unwrap();
    assert_eq!(numbers.state, ExportState::Queued);
    assert_eq!(numbers.attempt_sequence, Some(2));
    assert!(export_row(&StoredExportNumbers { created_at: -1, ..stored.clone() }).is_none());
    assert!(export_row(&StoredExportNumbers { state: text("lost"), ..stored.clone() }).is_none());
    assert!(export_row(&StoredExportNumbers {
        artifact_width: Some(1 << 40),
        ..stored
    })
    .is_none());
    for state in [
        ExportState::Queued,
        ExportState::Running,
        ExportState::Succeeded,
        ExportState::Failed,
        ExportState::Cancelled,
    ] {
        assert_eq!(ExportState::parse_name(&text(state.name())), Some(state));
    }
    assert!(ExportState::Failed.is_terminal() && !ExportState::Running.is_terminal());
}

#[test]
fn keys_and_clocks_are_written_plainly() {
    assert_eq!(export_receipt_key(&text("p"), &text("r")), "export_receipt:p\0r");
    assert_eq!(export_publication_claim_key(&text("x")), "export_publication:x");
    assert_eq!(export_expiry_tombstone_key(&text("x")), "export_expired:x");
    assert_eq!(
        claim_export_publication(&text("wor\"ker"), 12),
        "{\"incarnation\":\"wor\\\"ker\",\"sequence\":12}"
    );
    assert!(matches!(settle_publication_claim(true), Ok(true)));
    assert!(matches!(settle_publication_claim(false), Ok(false)));
    assert_eq!(export_unix_seconds(None), 0);
    assert_eq!(export_unix_seconds(Some(9)), 9);
    assert_eq!(time_to_store(u64::MAX), -1);
    assert_eq!(time_to_store(7), 7);
    assert!(validate_export_request_id(&text("request-1")));
    assert!(!validate_export_request_id(&text("")));
    assert!(!validate_export_request_id(&text("a\u{7}b")));
    assert!(!validate_export_request_id(&"x".repeat(129)));
}

#[test]
fn lists_of_exports_are_cut_and_newest_first() {
    let mut desk = Desk::new();
    for index in 0..3 {
        desk.created(&format!("request-{index}"));
    }
    let mut rows = desk.rows.clone();
    rows[1].created_at += 5;
    let list = list_photo_exports(true, &rows, &text("raw-photo")).unwrap();
    assert_eq!(list[0].id, rows[1].id);
    assert_eq!(list.len(), 3);
    assert!(list_photo_exports(false, &rows, &text("raw-photo")).is_none());
    let many: Vec<ExportRow> = (0..EXPORT_LIST_LIMIT + 5)
        .map(|index| ExportRow { id: format!("x-{index:03}"), ..rows[0].clone() })
        .collect();
    assert_eq!(
        list_photo_exports(true, &many, &text("raw-photo")).unwrap().len(),
        EXPORT_LIST_LIMIT
    );
}
