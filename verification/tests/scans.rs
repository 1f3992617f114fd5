use slipstream_state::binary::Real;
use slipstream_state::codec::{
    CaptureFact, CaptureMetadataState, CaptureTimeField, OriginalErrorCategory, OriginalKind,
    PreviewSource, PreviewState, SelectionState,
};
use slipstream_state::error::PersistenceError;
use slipstream_state::manual_recovery::{apply_manual_relocations, RequestedRelocation};
use slipstream_state::recovery::{
    fingerprint_counts, next_fingerprint_target, recovery_facts, recovery_survey, seed_preview,
    store_fingerprint, FingerprintCounts, PreviewSeed, PreviewSeedResult, SeedFacts,
};
use slipstream_state::scan::{
    check_relocations, find_known_id, is_storable, scan_identities, PreviewFacts,
    ReconciledPhoto,
};
use slipstream_state::scan_state::{
    new_pending_capture, DiscoveredFingerprint, DiscoveredOriginal, OriginalFingerprint,
    OriginalRecord, PhotoRecord, ScanRecoveryPlan, ScanRelocation, ScanTables,
};
use slipstream_state::snapshot::{
    apply_scan_recovered, read_original, read_photo, read_published, snapshot, OriginalScanError,
    ScanApplication, ScanSnapshot, StoredOriginal, StoredPhoto,
};

fn text(value: &str) -> String {
    value.to_owned()
}

fn number(value: f64) -> Real {
    Real { bits: value.to_bits() }
}

fn revision(path: &str, size: u64, mtime: Real) -> String {
    format!("{path}-{size}-{:x}", mtime.bits)
}

fn discovered(path: &str, kind: OriginalKind, size: u64, mtime_ms: f64) -> DiscoveredOriginal {
    DiscoveredOriginal {
        path: text(path),
        kind,
        size,
        mtime_ms: number(mtime_ms),
        error_category: None,
        error_message: None,
        capture: new_pending_capture(),
    }
}

fn known(key: &str, revision: &str, offset: Option<i32>) -> CaptureFact {
    CaptureFact {
        state: CaptureMetadataState::Known,
        order_key: Some(text(key)),
        field: Some(CaptureTimeField::DateTimeOriginal),
        offset_minutes: offset,
        source_revision: Some(text(revision)),
    }
}

fn no_recovery() -> ScanRecoveryPlan {
    ScanRecoveryPlan { relocations: Vec::new(), fingerprints: Vec::new() }
}

/// The scanned tables of a library, with one Photo for each Original File.
struct Catalog {
    tables: ScanTables,
    made: u32,
}

impl Catalog {
    fn new() -> Catalog {
        Catalog {
            tables: ScanTables {
                originals: Vec::new(),
                photos: Vec::new(),
                fingerprints: Vec::new(),
                published: false,
            },
            made: 0,
        }
    }

    fn fresh(&mut self, count: usize) -> Vec<String> {
        (0..count)
            .map(|_| {
                self.made += 1;
                format!("id-{:03}", self.made)
            })
            .collect()
    }

    fn apply(
        &mut self,
        found: Vec<DiscoveredOriginal>,
        recovery: ScanRecoveryPlan,
    ) -> Result<ScanApplication, PersistenceError> {
        self.apply_reported(found, Vec::new(), recovery)
    }

    fn apply_reported(
        &mut self,
        found: Vec<DiscoveredOriginal>,
        errors: Vec<OriginalScanError>,
        recovery: ScanRecoveryPlan,
    ) -> Result<ScanApplication, PersistenceError> {
        let fresh = self.fresh(found.len());
        let identities = scan_identities(&self.tables, &found, &recovery.relocations, &fresh)?;
        let mut reconciled = Vec::new();
        for (original, id) in found.iter().zip(&identities.ids) {
            let prior = self.tables.photos.iter().find(|photo| photo.original_id == *id).cloned();
            let unchanged = self.tables.originals.iter().any(|known| {
                known.relative_path == original.path
                    && known.size == original.size
                    && known.mtime_ms == original.mtime_ms
            });
            let preserve = prior.as_ref().is_some_and(|photo| {
                photo.preview_state == PreviewState::Ready && unchanged
            });
            let photo_id = match &prior {
                Some(photo) => photo.id.clone(),
                None => self.fresh(1).remove(0),
            };
            reconciled.push(ReconciledPhoto {
                id: photo_id,
                original_id: id.clone(),
                available: original.error_category.is_none(),
                prior: prior.map(|photo| PreviewFacts {
                    state: photo.preview_state,
                    source_revision: photo.preview_source_revision,
                    width: photo.preview_width,
                    height: photo.preview_height,
                    cache_revision: photo.cache_revision,
                }),
                preserve,
                selected_path: Some(original.path.clone()),
                sort_path: original.path.clone(),
            });
        }
        for photo in &self.tables.photos {
            if !identities.ids.contains(&photo.original_id) {
                reconciled.push(ReconciledPhoto {
                    id: photo.id.clone(),
                    original_id: photo.original_id.clone(),
                    available: false,
                    prior: None,
                    preserve: false,
                    selected_path: None,
                    sort_path: photo.sort_path.clone(),
                });
            }
        }
        let applied = apply_scan_recovered(
            &self.tables,
            &found,
            errors,
            &identities.ids,
            &reconciled,
            &recovery,
        )?;
        self.tables = applied.tables;
        Ok(applied.application)
    }

    fn scan(&mut self, found: Vec<DiscoveredOriginal>) -> ScanSnapshot {
        self.apply(found, no_recovery()).unwrap().snapshot
    }

    fn seed(&mut self, seed: &PreviewSeed) -> PreviewSeedResult {
        let at = self.tables.photos.iter().position(|photo| photo.id == seed.photo_id);
        let facts = at.map(|at| {
            let photo = &self.tables.photos[at];
            let original = self
                .tables
                .originals
                .iter()
                .find(|original| original.id == photo.original_id)
                .unwrap();
            SeedFacts {
                kind: text(if original.kind == OriginalKind::Raw { "raw" } else { "jpeg" }),
                size: original.size as i64,
                revision: Some(revision(
                    &original.relative_path,
                    original.size,
                    original.mtime_ms,
                )),
            }
        });
        let (result, preview) = seed_preview(&facts, seed).unwrap();
        if let (Some(at), Some(preview)) = (at, preview) {
            let photo = &mut self.tables.photos[at];
            photo.preview_state = preview.state;
            photo.preview_source_revision = preview.source_revision;
            photo.preview_width = preview.width;
            photo.preview_height = preview.height;
            photo.cache_revision = preview.cache_revision;
        }
        result
    }
}

fn seed(photo_id: &str, source: PreviewSource, expected: &str, cache: &str) -> PreviewSeed {
    PreviewSeed {
        photo_id: text(photo_id),
        state: PreviewState::Ready,
        source,
        expected_source_revision: text(expected),
        width: Some(100),
        height: Some(50),
        cache_revision: Some(text(cache)),
    }
}

#[test]
fn library_snapshot_orders_raw_first_capture_then_missing_paths() {
    let mut z = discovered("shoot/Z.JPG", OriginalKind::Jpeg, 1, 1.0);
    let mut a = discovered("shoot/A.JPG", OriginalKind::Jpeg, 2, 2.0);
    let b = discovered("shoot/B.JPG", OriginalKind::Jpeg, 3, 3.0);
    z.capture = known("2026-01-01T09:00:00.000000000", "z-revision", None);
    a.capture = known("2026-01-01T10:00:00.000000000", "a-revision", Some(60));
    let snapshot = Catalog::new().scan(vec![a, b, z]);
    assert_eq!(
        snapshot.photos.iter().map(|photo| photo.sort_path.as_str()).collect::<Vec<_>>(),
        ["shoot/Z.JPG", "shoot/A.JPG", "shoot/B.JPG"]
    );
}

#[test]
fn capture_order_orders_each_photo_by_its_own_original_and_retains_unavailable_facts() {
    let mut raw = discovered("pair.ARW", OriginalKind::Raw, 1, 1.0);
    raw.capture = known("2026-01-01T11:00:00.000000000", "raw", None);
    let mut jpeg = discovered("pair.JPG", OriginalKind::Jpeg, 1, 1.0);
    jpeg.capture = known("2026-01-01T10:00:00.000000000", "jpeg", None);
    let mut middle = discovered("middle.JPG", OriginalKind::Jpeg, 1, 1.0);
    middle.capture = known("2026-01-01T10:30:00.000000000", "middle", None);
    let mut z = discovered("z.JPG", OriginalKind::Jpeg, 1, 1.0);
    z.capture = known("2026-01-01T12:00:00.000000000", "z", None);
    let mut a = discovered("a.JPG", OriginalKind::Jpeg, 1, 1.0);
    a.capture = known("2026-01-01T12:00:00.000000000", "a", None);
    let missing = discovered("missing.JPG", OriginalKind::Jpeg, 1, 1.0);
    let mut catalog = Catalog::new();
    let first = catalog.scan(vec![raw.clone(), jpeg, middle, z, a, missing]);
    assert_eq!(
        first.photos.iter().map(|photo| photo.sort_path.as_str()).collect::<Vec<_>>(),
        ["pair.JPG", "middle.JPG", "pair.ARW", "a.JPG", "z.JPG", "missing.JPG"]
    );
    let capture_of = |snapshot: &ScanSnapshot| {
        let found = snapshot.originals.iter().find(|original| original.relative_path == "pair.ARW");
        found.unwrap().capture.clone()
    };
    let unavailable = catalog.scan(Vec::new());
    assert_eq!(capture_of(&unavailable), raw.capture);
    raw.size = 2;
    raw.capture = CaptureFact {
        state: CaptureMetadataState::Missing,
        order_key: None,
        field: None,
        offset_minutes: None,
        source_revision: Some(text("raw-replaced")),
    };
    let replacement_fact = raw.capture.clone();
    let replaced = catalog.scan(vec![raw]);
    assert_eq!(capture_of(&replaced), replacement_fact);
}

#[test]
fn equal_capture_and_path_ties_use_photo_id_bytes() {
    let original = |id: &str, path: &str| OriginalRecord {
        id: text(id),
        relative_path: text(path),
        kind: OriginalKind::Jpeg,
        size: 1,
        mtime_ms: number(1.0),
        available: true,
        error_category: None,
        error_message: None,
        capture: known("2026-01-01T10:00:00.000000000", "revision", None),
    };
    let tables = ScanTables {
        originals: vec![original("original-a", "source-a.JPG"), original("original-z", "source-z.JPG")],
        photos: vec![
            photo("z-photo", "original-z", "same.JPG"),
            photo("a-photo", "original-a", "same.JPG"),
        ],
        fingerprints: Vec::new(),
        published: true,
    };
    assert_eq!(
        snapshot(&tables).photos.iter().map(|photo| photo.id.as_str()).collect::<Vec<_>>(),
        ["a-photo", "z-photo"]
    );
}

fn photo(id: &str, original_id: &str, sort_path: &str) -> PhotoRecord {
    PhotoRecord {
        id: text(id),
        original_id: text(original_id),
        available: true,
        preview_state: PreviewState::InspectionPending,
        preview_source_revision: None,
        preview_width: None,
        preview_height: None,
        cache_revision: None,
        sort_path: text(sort_path),
        selection_state: SelectionState::Undecided,
        rating: 0,
        has_saved_edits: false,
        removed: false,
    }
}

#[test]
fn scans_answer_with_the_errors_they_were_given() {
    let mut catalog = Catalog::new();
    let error = OriginalScanError {
        path: text("locked.JPG"),
        category: OriginalErrorCategory::Unreadable,
        message: text("permission denied"),
    };
    let found = vec![discovered("one.JPG", OriginalKind::Jpeg, 4, 1000.0)];
    let applied = catalog
        .apply_reported(found, vec![error.clone()], no_recovery())
        .unwrap();
    assert_eq!(applied.snapshot.errors, [error]);
    assert_eq!(applied.snapshot.originals.len(), 1);
    assert_eq!(applied.snapshot.originals[0].relative_path, "one.JPG");

    let read = snapshot(&catalog.tables);
    assert!(read.errors.is_empty());
    assert_eq!(read.originals, applied.snapshot.originals);
    assert_eq!(read.photos, applied.snapshot.photos);
}

#[test]
fn applies_scans_transactionally_and_preserves_unavailable_pair_identity() {
    let mut catalog = Catalog::new();
    let raw = discovered("one.ARW", OriginalKind::Raw, 3, 1000.0);
    let jpeg = discovered("one.JPG", OriginalKind::Jpeg, 4, 1000.0);
    let first = catalog.scan(vec![raw.clone(), jpeg]);
    assert_eq!(first.originals.len(), 2);
    assert_eq!(first.photos.len(), 2);
    let raw_id = first
        .originals
        .iter()
        .find(|original| original.kind == OriginalKind::Raw)
        .unwrap()
        .id
        .clone();
    let raw_photo = first.photos.iter().find(|photo| photo.original_id == raw_id).unwrap();
    let jpeg_photo = first.photos.iter().find(|photo| photo.id != raw_photo.id).unwrap();
    assert!(raw_photo.available);
    assert!(jpeg_photo.available);
    assert_eq!(raw_photo.preview_state, PreviewState::InspectionPending);

    let unavailable = catalog.scan(Vec::new());
    let missing = unavailable.photos.iter().find(|photo| photo.id == raw_photo.id).unwrap();
    assert_eq!(missing.original_id, raw_photo.original_id);
    assert!(!missing.available);
    assert_eq!(missing.preview_state, PreviewState::Unavailable);

    let restored = catalog.scan(vec![raw]);
    let restored_photo = restored.photos.iter().find(|photo| photo.id == raw_photo.id).unwrap();
    assert!(restored_photo.available);
    assert_eq!(restored_photo.original_id, raw_photo.original_id);
    assert_eq!(restored_photo.preview_state, PreviewState::InspectionPending);
}

#[test]
fn preserves_decisions_and_memberships_while_reconciling_rows() {
    let raw = discovered("one.ARW", OriginalKind::Raw, 3, 1000.0);
    let jpeg = discovered("one.JPG", OriginalKind::Jpeg, 4, 1000.0);
    let mut catalog = Catalog::new();
    let first = catalog.scan(vec![raw.clone(), jpeg.clone()]);
    let stable = first.photos[0].id.clone();
    for photo in &mut catalog.tables.photos {
        if photo.id == stable {
            photo.selection_state = SelectionState::Selected;
            photo.rating = 5;
        }
    }
    let after = catalog.scan(vec![raw, jpeg]);
    assert_eq!(after.photos[0].id, stable);
    assert_eq!(after.photos[0].selection_state, SelectionState::Selected);
    assert_eq!(after.photos[0].rating, 5);
}

#[test]
fn preserves_preview_facts_only_for_unchanged_original_and_uses_cas() {
    let mut catalog = Catalog::new();
    let first = catalog.scan(vec![discovered("one.JPG", OriginalKind::Jpeg, 4, 1000.0)]);
    let photo_id = first.photos[0].id.clone();
    let expected = revision("one.JPG", 4, number(1000.0));
    assert_eq!(
        catalog.seed(&seed(&photo_id, PreviewSource::JpegOriginal, &expected, "cache-v1")),
        PreviewSeedResult::Applied
    );
    let unchanged = catalog.scan(vec![discovered("one.JPG", OriginalKind::Jpeg, 4, 1000.0)]);
    assert_eq!(unchanged.photos[0].preview_state, PreviewState::Ready);
    assert_eq!(unchanged.photos[0].cache_revision.as_deref(), Some("cache-v1"));
    let changed = catalog.scan(vec![discovered("one.JPG", OriginalKind::Jpeg, 5, 1001.0)]);
    assert_eq!(changed.photos[0].preview_state, PreviewState::InspectionPending);
    assert_eq!(
        catalog.seed(&seed(&photo_id, PreviewSource::JpegOriginal, &expected, "stale")),
        PreviewSeedResult::StaleIgnored
    );
}

#[test]
fn relocation_resets_preview_and_moves_identity_in_one_transaction() {
    let mut catalog = Catalog::new();
    let first = catalog.scan(vec![discovered("one.JPG", OriginalKind::Jpeg, 4, 1000.0)]);
    let original_id = first.photos[0].original_id.clone();
    let photo_id = first.photos[0].id.clone();
    let expected = revision("one.JPG", 4, number(1000.0));
    assert_eq!(
        catalog.seed(&seed(&photo_id, PreviewSource::JpegOriginal, &expected, "cache-v1")),
        PreviewSeedResult::Applied
    );
    let recovery = ScanRecoveryPlan {
        relocations: vec![ScanRelocation {
            path: text("moved/two.JPG"),
            original_id: original_id.clone(),
        }],
        fingerprints: vec![DiscoveredFingerprint {
            path: text("moved/two.JPG"),
            digest: "0".repeat(64),
        }],
    };
    let relocated = catalog
        .apply(vec![discovered("moved/two.JPG", OriginalKind::Jpeg, 4, 1000.0)], recovery)
        .unwrap();
    assert_eq!(relocated.snapshot.photos.len(), 1);
    assert_eq!(relocated.snapshot.photos[0].id, photo_id);
    assert_eq!(relocated.relocated_originals, 1);
    assert_eq!(relocated.fingerprinted_originals, 1);
    assert_eq!(relocated.snapshot.originals[0].relative_path, "moved/two.JPG");
    assert_eq!(
        relocated.snapshot.photos[0].preview_state,
        PreviewState::InspectionPending
    );
    assert!(relocated.snapshot.photos[0].cache_revision.is_none());
    assert_eq!(catalog.tables.fingerprints.len(), 1);
    assert_eq!(catalog.tables.fingerprints[0].original_id, original_id);
}

#[test]
fn rolls_back_scan_and_keeps_the_prior_snapshot_without_partial_rows() {
    let mut catalog = Catalog::new();
    let initial = catalog.scan(vec![discovered("one.JPG", OriginalKind::Jpeg, 4, 1000.0)]);
    let mut broken = discovered("second.JPG", OriginalKind::Jpeg, 6, 1002.0);
    broken.capture.state = CaptureMetadataState::Known;
    let failed = catalog.apply(
        vec![discovered("new.JPG", OriginalKind::Jpeg, 5, 1001.0), broken],
        no_recovery(),
    );
    assert!(matches!(failed, Err(PersistenceError::Storage)));
    assert_eq!(snapshot(&catalog.tables), initial);
}

#[test]
fn stale_fallback_preview_completion_is_ignored_after_candidate_change() {
    let mut catalog = Catalog::new();
    let initial = catalog.scan(vec![discovered("one.ARW", OriginalKind::Raw, 3, 1000.0)]);
    let photo_id = initial.photos[0].id.clone();
    let raw_revision = revision("one.ARW", 3, number(1000.0));
    assert_eq!(
        catalog.seed(&seed(&photo_id, PreviewSource::RawEmbeddedJpeg, &raw_revision, "raw-cache")),
        PreviewSeedResult::Applied
    );
    let updated = catalog.scan(vec![discovered("one.ARW", OriginalKind::Raw, 7, 1002.0)]);
    assert_eq!(updated.photos[0].preview_state, PreviewState::InspectionPending);
    assert_eq!(
        catalog.seed(&seed(&photo_id, PreviewSource::JpegOriginal, &raw_revision, "stale")),
        PreviewSeedResult::StaleIgnored
    );
}

#[test]
fn relocations_that_do_not_fit_are_refused() {
    let mut catalog = Catalog::new();
    let first = catalog.scan(vec![
        discovered("a.JPG", OriginalKind::Jpeg, 1, 1.0),
        discovered("b.JPG", OriginalKind::Jpeg, 2, 1.0),
    ]);
    let id = |path: &str| {
        let found = first.originals.iter().find(|original| original.relative_path == path);
        found.unwrap().id.clone()
    };
    let plan = |moves: Vec<(&str, String)>| ScanRecoveryPlan {
        relocations: moves
            .into_iter()
            .map(|(path, original_id)| ScanRelocation { path: text(path), original_id })
            .collect(),
        fingerprints: Vec::new(),
    };
    let raw = vec![discovered("new.ARW", OriginalKind::Raw, 1, 1.0)];
    let refused = |result: Result<ScanApplication, PersistenceError>| {
        matches!(result, Err(PersistenceError::InvalidRecovery))
    };
    assert!(refused(catalog.apply(raw.clone(), plan(vec![("new.ARW", id("a.JPG"))]))));
    assert!(refused(catalog.apply(raw.clone(), plan(vec![("new.ARW", text("unknown"))]))));
    assert!(refused(catalog.apply(raw, plan(vec![("elsewhere.JPG", id("a.JPG"))]))));
    let at_b = vec![discovered("b.JPG", OriginalKind::Jpeg, 2, 1.0)];
    assert!(refused(catalog.apply(at_b, plan(vec![("b.JPG", id("a.JPG"))]))));
    let swapped = vec![
        discovered("a.JPG", OriginalKind::Jpeg, 2, 1.0),
        discovered("b.JPG", OriginalKind::Jpeg, 1, 1.0),
    ];
    let swap = plan(vec![("a.JPG", id("b.JPG")), ("b.JPG", id("a.JPG"))]);
    assert!(check_relocations(&catalog.tables.originals, &swapped, &swap.relocations));
    assert_eq!(
        find_known_id(&catalog.tables.originals, &swap.relocations, &text("a.JPG")),
        Some(id("b.JPG"))
    );
    let after = catalog.apply(swapped, swap).unwrap().snapshot;
    let moved = after.originals.iter().find(|original| original.relative_path == "b.JPG").unwrap();
    assert_eq!(moved.id, id("a.JPG"));
}

#[test]
fn identities_in_use_are_a_collision() {
    let mut catalog = Catalog::new();
    let first = catalog.scan(vec![discovered("a.JPG", OriginalKind::Jpeg, 1, 1.0)]);
    let found = vec![discovered("b.JPG", OriginalKind::Jpeg, 1, 1.0)];
    for taken in [first.originals[0].id.clone(), first.photos[0].id.clone()] {
        assert!(matches!(
            scan_identities(&catalog.tables, &found, &Vec::new(), &vec![taken]),
            Err(PersistenceError::IdCollision)
        ));
    }
}

#[test]
fn the_database_takes_what_its_columns_allow() {
    let found = discovered("a.JPG", OriginalKind::Jpeg, 1, 1.0);
    assert!(is_storable(&found));
    assert!(!is_storable(&DiscoveredOriginal { size: u64::MAX, ..found.clone() }));
    assert!(!is_storable(&DiscoveredOriginal { mtime_ms: number(-1.0), ..found.clone() }));
    assert!(!is_storable(&DiscoveredOriginal {
        error_category: Some(OriginalErrorCategory::Unreadable),
        error_message: Some("x".repeat(121)),
        ..found.clone()
    }));
    let mut far = found.clone();
    far.capture = known("2026-01-01T09:00:00.000000000", "r", Some(841));
    assert!(!is_storable(&far));
    let mut unreadable = found;
    unreadable.error_category = Some(OriginalErrorCategory::Unreadable);
    let mut catalog = Catalog::new();
    let snapshot = catalog.scan(vec![unreadable]);
    assert!(!snapshot.originals[0].available);
    assert!(!snapshot.photos[0].available);
}

#[test]
fn retire_and_bind_refuses_a_photo_with_saved_recipe() {
    let original = |id: &str, path: &str, available: bool, size: u64, mtime: f64| OriginalRecord {
        id: text(id),
        relative_path: text(path),
        kind: OriginalKind::Raw,
        size,
        mtime_ms: number(mtime),
        available,
        error_category: None,
        error_message: None,
        capture: new_pending_capture(),
    };
    let missing = PhotoRecord {
        available: false,
        ..photo("missing-photo", "missing-original", "shoot/missing.ARW")
    };
    let occupant = PhotoRecord {
        has_saved_edits: true,
        ..photo("occupant-photo", "occupant-original", "moved/occupied.ARW")
    };
    let tables = ScanTables {
        originals: vec![
            original("missing-original", "shoot/missing.ARW", false, 11, 1_000.0),
            original("occupant-original", "moved/occupied.ARW", true, 19, 2_000.0),
        ],
        photos: vec![missing, occupant],
        fingerprints: Vec::new(),
        published: true,
    };
    let relocation = RequestedRelocation {
        original_id: text("missing-original"),
        location: Some(text("moved/occupied.ARW")),
        named_kind: Some(OriginalKind::Raw),
        size: 19,
        mtime_ms: number(2_000.0),
        retire_destination: true,
    };
    let result = apply_manual_relocations(
        &tables,
        &vec![relocation.clone()],
        &Vec::new(),
        &Vec::new(),
    );
    assert!(matches!(
        result,
        Err(PersistenceError::InvalidRecoveryMapping { reason: "occupied", .. })
    ));

    let mut free = tables.clone();
    free.photos[1].has_saved_edits = false;
    let done = apply_manual_relocations(&free, &vec![relocation], &Vec::new(), &Vec::new()).unwrap();
    assert_eq!(done.applied.relocated_photos, 1);
    assert_eq!(done.applied.unavailable_photos, 0);
    assert_eq!(done.tables.photos.len(), 1);
    assert_eq!(done.tables.originals.len(), 1);
    assert_eq!(done.tables.originals[0].id, "missing-original");
    assert_eq!(done.tables.originals[0].relative_path, "moved/occupied.ARW");
    assert!(done.tables.photos[0].available);
}

#[test]
fn manual_relocations_name_what_is_wrong() {
    let mut catalog = Catalog::new();
    let first = catalog.scan(vec![
        discovered("a.JPG", OriginalKind::Jpeg, 1, 1.0),
        discovered("b.JPG", OriginalKind::Jpeg, 2, 1.0),
    ]);
    let found = first.originals.iter().find(|original| original.relative_path == "a.JPG");
    let id = found.unwrap().id.clone();
    let relocation = RequestedRelocation {
        original_id: id.clone(),
        location: Some(text("c.JPG")),
        named_kind: Some(OriginalKind::Jpeg),
        size: 1,
        mtime_ms: number(1.0),
        retire_destination: false,
    };
    let refused = |catalog: &Catalog, list: Vec<RequestedRelocation>| {
        apply_manual_relocations(&catalog.tables, &list, &Vec::new(), &Vec::new()).is_err()
    };
    let none = vec![];
    catalog.scan(none);
    assert!(refused(
        &catalog,
        vec![RequestedRelocation { original_id: text("unknown"), ..relocation.clone() }]
    ));
    assert!(refused(
        &catalog,
        vec![RequestedRelocation { location: None, ..relocation.clone() }]
    ));
    assert!(refused(
        &catalog,
        vec![RequestedRelocation { named_kind: Some(OriginalKind::Raw), ..relocation.clone() }]
    ));
    assert!(refused(
        &catalog,
        vec![RequestedRelocation { location: Some(text("b.JPG")), ..relocation.clone() }]
    ));
    assert!(refused(&catalog, vec![relocation.clone(), relocation.clone()]));
    let done =
        apply_manual_relocations(&catalog.tables, &vec![relocation], &Vec::new(), &Vec::new())
            .unwrap();
    assert_eq!(done.applied.relocated_photos, 1);
    assert_eq!(done.applied.unavailable_photos, 1);
}

#[test]
fn fingerprints_are_enrolled_one_by_one() {
    let mut catalog = Catalog::new();
    catalog.scan(vec![
        discovered("b.JPG", OriginalKind::Jpeg, 2, 1.0),
        discovered("a.JPG", OriginalKind::Jpeg, 1, 1.0),
    ]);
    let tables = &mut catalog.tables;
    assert_eq!(
        fingerprint_counts(&tables.originals, &tables.fingerprints),
        FingerprintCounts { enrolled: 0, pending: 2 }
    );
    let mut seen = Vec::new();
    while let Some(target) = next_fingerprint_target(&tables.originals, &tables.fingerprints) {
        seen.push(target.relative_path.clone());
        let fingerprint = OriginalFingerprint {
            original_id: target.original_id,
            digest: "1".repeat(64),
            size: target.size,
            mtime_ms: target.mtime_ms,
        };
        store_fingerprint(&mut tables.fingerprints, &tables.originals, fingerprint).unwrap();
    }
    seen.sort();
    assert_eq!(seen, ["a.JPG", "b.JPG"]);
    assert_eq!(
        fingerprint_counts(&tables.originals, &tables.fingerprints),
        FingerprintCounts { enrolled: 2, pending: 0 }
    );
    let ids = vec![tables.originals[0].id.clone(), text("unknown")];
    assert_eq!(recovery_facts(&tables.fingerprints, &ids).len(), 1);
}

#[test]
fn a_survey_tells_what_is_unavailable_and_what_is_referenced() {
    let mut catalog = Catalog::new();
    let first = catalog.scan(vec![discovered("a.JPG", OriginalKind::Jpeg, 1, 1.0)]);
    let photo_id = first.photos[0].id.clone();
    catalog.scan(Vec::new());
    let survey =
        recovery_survey(&catalog.tables, &vec![photo_id.clone(), photo_id.clone()], &Vec::new());
    assert_eq!(survey.unavailable.len(), 1);
    assert_eq!(survey.unavailable[0].photo_id, photo_id);
    assert_eq!(survey.unavailable[0].album_count, 2);
    assert_eq!(survey.unavailable[0].fingerprint, None);
    assert_eq!(survey.referenced_photo_ids, vec![photo_id]);
}

#[test]
fn previews_of_unknown_photos_are_ignored() {
    let answer = seed_preview(&None, &seed("none", PreviewSource::JpegOriginal, "r", "c"));
    assert!(matches!(answer, Ok((PreviewSeedResult::StaleIgnored, None))));
    let facts = Some(SeedFacts { kind: text("jpeg"), size: -1, revision: None });
    let answer = seed_preview(&facts, &seed("p", PreviewSource::JpegOriginal, "r", "c"));
    assert!(matches!(answer, Ok((PreviewSeedResult::StaleIgnored, None))));
    let facts = Some(SeedFacts { kind: text("jpeg"), size: 1, revision: Some(text("r")) });
    let flat = PreviewSeed { width: Some(0), ..seed("p", PreviewSource::JpegOriginal, "r", "c") };
    assert!(matches!(seed_preview(&facts, &flat), Err(PersistenceError::Storage)));
}

#[test]
fn stored_rows_are_read_or_refused() {
    let row = StoredOriginal {
        id: text("o"),
        location: Some(text("a.JPG")),
        kind: text("jpeg"),
        size: 1,
        mtime_ms: number(1.0),
        available: 1,
        error_category: None,
        error_message: None,
        capture_state: text("pending"),
        capture_order_key: None,
        capture_field: None,
        capture_offset_minutes: None,
        capture_source_revision: None,
    };
    assert_eq!(read_original(&row).unwrap().kind, OriginalKind::Jpeg);
    assert!(read_original(&StoredOriginal { kind: text("tiff"), ..row.clone() }).is_none());
    assert!(read_original(&StoredOriginal { size: -1, ..row.clone() }).is_none());
    assert!(read_original(&StoredOriginal { location: None, ..row }).is_none());
    let row = StoredPhoto {
        id: text("p"),
        original_id: text("o"),
        available: 1,
        preview_state: text("ready"),
        preview_source_revision: Some(text("r")),
        preview_width: Some(10),
        preview_height: Some(20),
        cache_revision: None,
        sort_path: text("a.JPG"),
        selection_state: text("selected"),
        rating: 4,
        saved_edits: 1,
        removed_at_ms: Some(3),
    };
    let read = read_photo(&row).unwrap();
    assert!(read.has_saved_edits && read.removed);
    assert_eq!(read.rating, 4);
    assert!(read_photo(&StoredPhoto { rating: 300, ..row.clone() }).is_none());
    assert!(read_photo(&StoredPhoto { selection_state: text("x"), ..row }).is_none());
    assert!(!read_published(&None));
}
