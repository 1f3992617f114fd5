use rusqlite::Connection;
use slipstream_state::binary::Real;
use slipstream_state::binding::{
    expand_library_binding, expansion_projection, propose_expansion, same_projection, AlbumEntry,
    BoundDatabase, ExpansionFacts, LibraryRows, MemberEntry, ProgressEntry, ProposedExpansion,
};
use slipstream_state::codec::{
    CaptureFact, CaptureMetadataState, CaptureTimeField, OriginalKind, PreviewState,
    SelectionState,
};
use slipstream_state::error::PersistenceError;
use slipstream_state::expansion::{
    check_expandable, check_journal, check_root_unchanged, check_same_directory, expansion_plan,
    expansion_prefix, required_root_binding, ExpansionOriginal, ExpansionPhoto,
};
use slipstream_state::legacy::{
    validate_legacy_v0, StoredValue, UnversionedFacts, UnversionedOriginal, UnversionedPhoto,
};
use slipstream_state::scan_state::{new_pending_capture, OriginalRecord, PhotoRecord};
use slipstream_state::schema::{
    compact_sql, schema_manifest, schema_version, strip_sql, validate_canonical_schema,
    ColumnFacts, ForeignKeyFacts, SchemaError, SchemaManifest, SchemaObject, SchemaVersion,
    TableFacts,
};
use slipstream_state::split_pairs::{
    migrate_v5, original_facts_by_id, revision_matches, PairedOriginal, PairedOriginalRow,
    PairedPhotoRow,
};
use slipstream_state::startup::{
    preflight_schema, preflight_schema_for_max_version, root_to_bind, startup_schema,
    step_failure, validate_database, validate_root_binding, MigrationStep, PreflightFacts,
    CURRENT_SCHEMA,
};

fn text(value: &str) -> String {
    value.to_owned()
}

fn number(value: f64) -> Real {
    Real { bits: value.to_bits() }
}

const FIRST_SQL: &str = "
CREATE TABLE library_metadata(key TEXT PRIMARY KEY, value TEXT NOT NULL);
CREATE TABLE original_files(
  id TEXT PRIMARY KEY, relative_path TEXT NOT NULL UNIQUE,
  kind TEXT NOT NULL CHECK(kind IN ('raw','jpeg')));
CREATE TABLE photos(
  id TEXT PRIMARY KEY, raw_original_id TEXT REFERENCES original_files(id),
  jpeg_original_id TEXT REFERENCES original_files(id), sort_path TEXT NOT NULL);
CREATE INDEX photos_raw ON photos(raw_original_id);
PRAGMA user_version = 1;";

const SECOND_SQL: &str = "
ALTER TABLE photos ADD COLUMN rating INTEGER NOT NULL DEFAULT 0 CHECK(rating BETWEEN 0 AND 5);
PRAGMA user_version = 2;";

const FIRST_SPACED_SQL: &str = "
create table \"library_metadata\" ( key text primary key,
   value text not null );
CREATE TABLE original_files( id TEXT PRIMARY KEY, relative_path TEXT NOT NULL UNIQUE,
  kind TEXT NOT NULL CHECK(kind IN ('raw', 'jpeg')) );
CREATE TABLE [photos] ( id TEXT PRIMARY KEY,
  raw_original_id TEXT REFERENCES original_files(id),
  jpeg_original_id TEXT REFERENCES original_files(id),
  sort_path TEXT NOT NULL );
CREATE INDEX photos_raw ON photos ( raw_original_id );
PRAGMA user_version = 1;";

fn execute_fixture(parts: &[&str]) -> Connection {
    let connection = Connection::open_in_memory().unwrap();
    for sql in parts {
        connection.execute_batch(sql).unwrap();
    }
    connection
}

fn read_manifest(connection: &Connection) -> rusqlite::Result<SchemaManifest> {
    let user_version: u32 = connection.pragma_query_value(None, "user_version", |row| row.get(0))?;
    let mut statement = connection.prepare(
        "SELECT type,name,sql FROM sqlite_master WHERE name NOT LIKE 'sqlite_%' ORDER BY type,name",
    )?;
    let rows = statement
        .query_map([], |row| {
            Ok((row.get::<_, String>(0)?, row.get::<_, String>(1)?, row.get::<_, String>(2)?))
        })?
        .collect::<Result<Vec<_>, _>>()?;
    let mut stored = Vec::new();
    for (kind, name, sql) in rows {
        let columns = connection
            .prepare(&format!("PRAGMA table_info(\"{name}\")"))?
            .query_map([], |row| {
                Ok(ColumnFacts {
                    name: row.get(1)?,
                    column_type: row.get::<_, String>(2)?.to_uppercase(),
                    not_null: row.get(3)?,
                    default: row.get(4)?,
                    primary_key: row.get(5)?,
                })
            })?
            .collect::<Result<Vec<_>, _>>()?;
        let foreign_keys = connection
            .prepare(&format!("PRAGMA foreign_key_list(\"{name}\")"))?
            .query_map([], |row| {
                Ok(ForeignKeyFacts {
                    table: row.get(2)?,
                    from: row.get(3)?,
                    to: row.get(4)?,
                    on_update: row.get(5)?,
                    on_delete: row.get(6)?,
                })
            })?
            .collect::<Result<Vec<_>, _>>()?;
        let table = if kind == "table" { Some(TableFacts { columns, foreign_keys }) } else { None };
        stored.push(SchemaObject { kind, name, sql, table });
    }
    Ok(schema_manifest(user_version, &stored))
}

fn canonical(observed: &Connection, expected: &Connection) -> Result<(), SchemaError> {
    let expected = read_manifest(expected).unwrap();
    validate_canonical_schema(&read_manifest(observed).ok(), Some(&expected))
}

#[test]
fn exact_v1_and_v2_manifests_match_shared_contracts() {
    let v1 = execute_fixture(&[FIRST_SQL]);
    let v2 = execute_fixture(&[FIRST_SQL, SECOND_SQL]);
    let manifests = vec![read_manifest(&v1).unwrap(), read_manifest(&v2).unwrap()];
    let first = SchemaVersion::V1.manifest(&manifests);
    let second = SchemaVersion::V2.manifest(&manifests);
    assert!(validate_canonical_schema(&read_manifest(&v1).ok(), first).is_ok());
    assert!(validate_canonical_schema(&read_manifest(&v2).ok(), second).is_ok());
    assert!(validate_canonical_schema(&read_manifest(&v1).ok(), second).is_err());
    assert!(canonical(&execute_fixture(&[FIRST_SPACED_SQL]), &v1).is_ok());
    assert!(SchemaVersion::V3.manifest(&manifests).is_none());
    assert!(validate_canonical_schema(&None, first).is_err());
    assert!(validate_canonical_schema(&read_manifest(&v1).ok(), None).is_err());
}

#[test]
fn exact_manifest_rejects_extra_or_changed_objects() {
    let v1 = execute_fixture(&[FIRST_SQL]);
    v1.execute_batch("CREATE TABLE unexpected(value TEXT);").unwrap();
    assert!(canonical(&v1, &execute_fixture(&[FIRST_SQL])).is_err());

    let v2 = execute_fixture(&[FIRST_SQL, SECOND_SQL]);
    v2.execute_batch("DROP INDEX photos_raw; CREATE INDEX photos_raw ON photos(sort_path);")
        .unwrap();
    assert!(canonical(&v2, &execute_fixture(&[FIRST_SQL, SECOND_SQL])).is_err());
    assert_eq!(SchemaError.message(), "SQLite schema is unsupported");
}

#[test]
fn statements_are_compared_without_case_spacing_and_quotes() {
    assert_eq!(
        compact_sql(&text("CREATE  TABLE \"A\"(\n [b] `C` TEXT)")),
        "createtablea(bctext)"
    );
    assert_eq!(compact_sql(&text("ÀÉ")), "àé");
    assert_eq!(strip_sql(&text(" a\t[b]\u{3000}")), "ab");
    assert_eq!(strip_sql(&strip_sql(&text("\"x y\""))), "xy");
}

#[test]
fn versions_are_numbered() {
    for number in 1..=9u32 {
        assert_eq!(schema_version(number).unwrap().number(), number);
    }
    assert!(schema_version(0).is_none());
    assert!(schema_version(10).is_none());
}

fn facts(version: u32, root: Option<&str>) -> PreflightFacts {
    PreflightFacts {
        version,
        stored_root: root.map(text),
        has_original_files: false,
        legacy: Ok(()),
        canonical: true,
    }
}

#[test]
fn legacy_v3_binary_fence_rejects_canonical_v4() {
    assert!(matches!(
        preflight_schema_for_max_version(facts(4, None), &text("/library"), 3),
        Err(PersistenceError::NewerSchema)
    ));
}

#[test]
fn legacy_v4_binary_fence_rejects_canonical_v5_without_changes() {
    assert!(matches!(
        preflight_schema_for_max_version(facts(5, None), &text("/library"), 4),
        Err(PersistenceError::NewerSchema)
    ));
    assert!(preflight_schema_for_max_version(facts(5, None), &text("/library"), 5).is_ok());
}

#[test]
fn newer_v10_database_is_rejected_without_changes() {
    assert!(matches!(
        preflight_schema(facts(10, None), &text("/library")),
        Err(PersistenceError::NewerSchema)
    ));
    assert!(matches!(
        startup_schema(10, &None, &text("/library")),
        Err(PersistenceError::NewerSchema)
    ));
}

#[test]
fn root_mismatch_rejects_before_migration_without_changes() {
    assert!(matches!(
        preflight_schema(facts(1, Some("/different")), &text("/library")),
        Err(PersistenceError::RootMismatch)
    ));
    assert!(matches!(
        startup_schema(1, &Some(text("/different")), &text("/library")),
        Err(PersistenceError::RootMismatch)
    ));
    assert!(validate_root_binding(&Some(text("/library")), &text("/library")).is_ok());
    assert!(validate_root_binding(&None, &text("/library")).is_ok());
}

#[test]
fn preflight_tells_what_is_wrong_with_a_schema() {
    let root = text("/library");
    let broken = PreflightFacts { canonical: false, ..facts(2, None) };
    assert!(matches!(preflight_schema(broken, &root), Err(PersistenceError::UnsupportedSchema)));
    let legacy = PreflightFacts {
        has_original_files: true,
        legacy: Err(PersistenceError::InvalidLegacyData),
        ..facts(0, None)
    };
    assert!(matches!(preflight_schema(legacy, &root), Err(PersistenceError::InvalidLegacyData)));
    let empty = PreflightFacts { canonical: false, ..facts(0, None) };
    assert!(preflight_schema(empty, &root).is_ok());
}

#[test]
fn plans_reach_the_current_version() {
    let root = text("/library");
    assert_eq!(CURRENT_SCHEMA, 9);
    assert_eq!(
        startup_schema(9, &None, &root).unwrap(),
        vec![
            MigrationStep::Check(SchemaVersion::V9),
            MigrationStep::BindRoot,
            MigrationStep::CheckIntegrity,
            MigrationStep::Check(SchemaVersion::V9),
        ]
    );
    assert_eq!(
        startup_schema(7, &None, &root).unwrap(),
        vec![
            MigrationStep::Check(SchemaVersion::V7),
            MigrationStep::Check(SchemaVersion::V7),
            MigrationStep::AddExports,
            MigrationStep::Check(SchemaVersion::V8),
            MigrationStep::Check(SchemaVersion::V8),
            MigrationStep::AddRemovals,
            MigrationStep::Check(SchemaVersion::V9),
            MigrationStep::BindRoot,
            MigrationStep::CheckIntegrity,
            MigrationStep::Check(SchemaVersion::V9),
        ]
    );
    let whole = startup_schema(0, &None, &root).unwrap();
    assert_eq!(whole[0], MigrationStep::FromNothing);
    for step in [
        MigrationStep::AddDecisions,
        MigrationStep::AddCaptureFacts,
        MigrationStep::MarkVersionFour,
        MigrationStep::RenameAlbums,
        MigrationStep::SplitPairs,
        MigrationStep::AddRecipes,
        MigrationStep::AddExports,
        MigrationStep::AddRemovals,
    ] {
        assert_eq!(whole.iter().filter(|known| **known == step).count(), 1);
    }
    assert!(matches!(
        step_failure(MigrationStep::Check(SchemaVersion::V2)),
        PersistenceError::UnsupportedSchema
    ));
    assert!(matches!(step_failure(MigrationStep::SplitPairs), PersistenceError::Storage));
    assert_eq!(root_to_bind(&None, &root), Some(root.clone()));
    assert_eq!(root_to_bind(&Some(root.clone()), &root), None);
    assert!(validate_database(false, &text("ok")).is_ok());
    assert!(validate_database(true, &text("ok")).is_err());
    assert!(validate_database(false, &text("row missing")).is_err());
}

fn unversioned() -> UnversionedFacts {
    let names = |list: &[&str]| list.iter().map(|name| text(name)).collect::<Vec<_>>();
    UnversionedFacts {
        tables: names(&["library_metadata", "original_files", "photos"]),
        metadata_columns: names(&["key", "value"]),
        original_columns: names(&[
            "id",
            "relative_path",
            "kind",
            "size",
            "mtime_ms",
            "available",
            "inspection_error",
        ]),
        photo_columns: names(&[
            "id",
            "raw_original_id",
            "jpeg_original_id",
            "ambiguous",
            "available",
            "preview_state",
            "preview_source",
            "sort_path",
        ]),
        originals: vec![UnversionedOriginal {
            id: StoredValue::Text(text("o")),
            relative_path: StoredValue::Text(text("a.JPG")),
            kind: StoredValue::Text(text("jpeg")),
            size: StoredValue::Integer(1),
            mtime_ms: StoredValue::Number(number(1.5)),
            available: StoredValue::Integer(1),
        }],
        photos: vec![UnversionedPhoto {
            id: StoredValue::Text(text("p")),
            raw_original_id: StoredValue::Null,
            jpeg_original_id: StoredValue::Text(text("o")),
            ambiguous: StoredValue::Integer(0),
            available: StoredValue::Integer(1),
            preview_state: StoredValue::Text(text("ready")),
            preview_source: StoredValue::Null,
            sort_path: StoredValue::Text(text("a.JPG")),
        }],
    }
}

#[test]
fn databases_without_a_version_are_sound_or_refused() {
    assert!(validate_legacy_v0(&unversioned()).is_ok());
    let mut extra = unversioned();
    extra.tables.push(text("spare"));
    assert!(matches!(validate_legacy_v0(&extra), Err(PersistenceError::UnsupportedSchema)));
    let mut dangling = unversioned();
    dangling.photos[0].raw_original_id = StoredValue::Text(text("gone"));
    let mut negative = unversioned();
    negative.originals[0].size = StoredValue::Integer(-1);
    let mut odd = unversioned();
    odd.originals[0].kind = StoredValue::Text(text("tiff"));
    let mut blob = unversioned();
    blob.originals[0].id = StoredValue::Blob;
    for broken in [dangling, negative, odd, blob] {
        assert!(matches!(validate_legacy_v0(&broken), Err(PersistenceError::InvalidLegacyData)));
    }
}

fn paired(id: &str, kind: &str, revision: &str) -> PairedOriginalRow {
    PairedOriginalRow {
        id: text(id),
        available: 1,
        relative_path: format!("shoot/{id}"),
        size: 3,
        mtime_ms: number(1.0),
        kind: text(kind),
        revision: Some(text(revision)),
    }
}

fn pair() -> PairedPhotoRow {
    PairedPhotoRow {
        id: text("photo"),
        raw_original_id: Some(text("raw")),
        jpeg_original_id: Some(text("jpeg")),
        preview_state: text("ready"),
        preview_source: Some(text("embedded-raw-jpeg")),
        preview_source_revision: Some(text("r1")),
        preview_width: Some(10),
        preview_height: Some(20),
        cache_revision: Some(text("cache")),
        sort_path: text("shoot/raw"),
        selection_state: text("selected"),
        rating: 4,
    }
}

fn both() -> Vec<PairedOriginal> {
    original_facts_by_id(&vec![paired("raw", "raw", "r1"), paired("jpeg", "jpeg", "j1")]).unwrap()
}

#[test]
fn pairs_are_split_into_photos_of_their_own() {
    let rows =
        migrate_v5(&vec![pair()], &both(), &vec![text("photo")], &vec![text("fresh")]).unwrap();
    assert_eq!(rows.len(), 2);
    assert_eq!(rows[0].id, "photo");
    assert_eq!(rows[0].original_id, "raw");
    assert_eq!(rows[0].selection_state, "selected");
    assert_eq!(rows[0].rating, 4);
    assert_eq!(rows[0].preview_state, "ready");
    assert_eq!(rows[0].cache_revision.as_deref(), Some("cache"));
    assert_eq!(rows[1].id, "fresh");
    assert_eq!(rows[1].original_id, "jpeg");
    assert_eq!(rows[1].selection_state, "undecided");
    assert_eq!(rows[1].rating, 0);
    assert_eq!(rows[1].sort_path, "shoot/jpeg");

    let stale = PairedPhotoRow { preview_source_revision: Some(text("r0")), ..pair() };
    let rows = migrate_v5(&vec![stale], &both(), &Vec::new(), &vec![text("fresh")]).unwrap();
    assert_eq!(rows[0].preview_state, "inspection-pending");
    assert_eq!(rows[0].cache_revision, None);
    assert!(revision_matches(&Some(text("a")), &Some(text("a"))));
    assert!(!revision_matches(&None, &None));
}

#[test]
fn pairs_that_cannot_be_split_are_refused() {
    let empty = PairedPhotoRow { raw_original_id: None, jpeg_original_id: None, ..pair() };
    assert!(matches!(
        migrate_v5(&vec![empty.clone()], &both(), &vec![text("photo")], &vec![text("fresh")]),
        Err(PersistenceError::InvalidLegacyData)
    ));
    assert!(migrate_v5(&vec![empty], &both(), &Vec::new(), &vec![text("fresh")])
        .unwrap()
        .is_empty());
    let unknown = PairedPhotoRow { raw_original_id: Some(text("none")), ..pair() };
    assert!(matches!(
        migrate_v5(&vec![unknown], &both(), &Vec::new(), &vec![text("fresh")]),
        Err(PersistenceError::InvalidLegacyData)
    ));
    assert!(matches!(
        migrate_v5(&vec![pair()], &both(), &Vec::new(), &vec![text("photo")]),
        Err(PersistenceError::IdCollision)
    ));
    let negative = PairedOriginalRow { size: -1, ..paired("raw", "raw", "r1") };
    assert!(matches!(original_facts_by_id(&vec![negative]), Err(PersistenceError::Storage)));
    assert!(matches!(
        original_facts_by_id(&vec![paired("raw", "tiff", "r1")]),
        Err(PersistenceError::InvalidLegacyData)
    ));
}

fn original(id: &str, path: &str) -> OriginalRecord {
    OriginalRecord {
        id: text(id),
        relative_path: text(path),
        kind: OriginalKind::Jpeg,
        size: 1,
        mtime_ms: number(1.0),
        available: true,
        error_category: None,
        error_message: None,
        capture: CaptureFact {
            state: CaptureMetadataState::Known,
            order_key: Some(text("2026-01-01T09:00:00.000000000")),
            field: Some(CaptureTimeField::DateTimeOriginal),
            offset_minutes: None,
            source_revision: Some(text("r")),
        },
    }
}

fn photo(id: &str, original_id: &str, sort_path: &str) -> PhotoRecord {
    PhotoRecord {
        id: text(id),
        original_id: text(original_id),
        available: true,
        preview_state: PreviewState::Ready,
        preview_source_revision: Some(text("r")),
        preview_width: Some(1),
        preview_height: Some(1),
        cache_revision: Some(text("c")),
        sort_path: text(sort_path),
        selection_state: SelectionState::Selected,
        rating: 3,
        has_saved_edits: false,
        removed: false,
    }
}

fn expandable(row: &OriginalRecord) -> ExpansionOriginal {
    ExpansionOriginal {
        id: row.id.clone(),
        relative_path: row.relative_path.clone(),
        kind: text("jpeg"),
        location: Some(row.relative_path.clone()),
        named_kind: Some(OriginalKind::Jpeg),
        prefixed_is_location: true,
    }
}

fn library(paths: &[&str]) -> LibraryRows {
    let originals: Vec<OriginalRecord> = paths
        .iter()
        .enumerate()
        .map(|(index, path)| original(&format!("o{index}"), path))
        .collect();
    let photos = originals
        .iter()
        .map(|row| photo(&row.id.replace('o', "p"), &row.id, &row.relative_path))
        .collect();
    LibraryRows {
        originals,
        photos,
        albums: vec![AlbumEntry { id: text("a"), name: text("Keep"), created_at: 1 }],
        members: vec![MemberEntry { album_id: text("a"), photo_id: text("p0"), position: 0 }],
        progress: vec![ProgressEntry { album_id: text("a"), photo_id: text("p0") }],
    }
}

fn expansion(library: &LibraryRows) -> ExpansionFacts {
    ExpansionFacts {
        same_before: Some(true),
        scanned: true,
        same_after: Some(true),
        journal: text("DELETE"),
        planned_root: Some(text("/photos/shoot")),
        sound: true,
        rows: library.originals.iter().map(expandable).collect(),
        photo_rows: library
            .photos
            .iter()
            .map(|row| ExpansionPhoto {
                id: row.id.clone(),
                original_id: row.original_id.clone(),
            })
            .collect(),
        preserved: expansion_projection(library),
        canonical: true,
        root: Some(text("/photos/shoot")),
        library: library.clone(),
    }
}

fn proposal() -> ProposedExpansion {
    propose_expansion(
        BoundDatabase {
            canonical_eight: false,
            canonical_seven: true,
            stored_root: Some(text("/photos/shoot")),
        },
        &text("/photos"),
    )
    .unwrap()
}

#[test]
fn a_library_is_bound_to_a_larger_root() {
    let rows = library(&["one.JPG", "day/two.JPG"]);
    let expansion_facts = expansion(&rows);
    let proposal = proposal();
    assert_eq!(proposal.prefix, "shoot");
    let expanded =
        expand_library_binding(expansion_facts, &proposal, &text("/photos")).unwrap();
    assert_eq!(expanded.root, "/photos");
    assert_eq!(expanded.originals[0].relative_path, "shoot/one.JPG");
    assert_eq!(expanded.originals[1].relative_path, "shoot/day/two.JPG");
    assert_eq!(expanded.originals[0].capture, new_pending_capture());
    assert_eq!(expanded.photos[1].sort_path, "shoot/day/two.JPG");
    assert_eq!(expanded.photos[0].preview_state, PreviewState::InspectionPending);
    assert_eq!(expanded.photos[0].cache_revision, None);
    assert_eq!(expanded.photos[0].selection_state, SelectionState::Selected);
    let after = LibraryRows {
        originals: expanded.originals,
        photos: expanded.photos,
        ..rows.clone()
    };
    assert!(same_projection(&expansion_projection(&after), &expansion_projection(&rows)));
}

#[test]
fn an_expansion_that_does_not_fit_is_refused() {
    let rows = library(&["one.JPG", "day/two.JPG"]);
    let result = |facts: ExpansionFacts| {
        expand_library_binding(facts, &proposal(), &text("/photos")).map(|_| ())
    };
    let invalid = |facts: ExpansionFacts| {
        matches!(result(facts), Err(PersistenceError::InvalidExpansion))
    };
    assert!(invalid(ExpansionFacts { same_before: Some(false), ..expansion(&rows) }));
    assert!(invalid(ExpansionFacts { same_after: None, ..expansion(&rows) }));
    assert!(invalid(ExpansionFacts { scanned: false, ..expansion(&rows) }));
    assert!(invalid(ExpansionFacts { planned_root: None, ..expansion(&rows) }));
    assert!(invalid(ExpansionFacts { root: Some(text("/other")), ..expansion(&rows) }));
    assert!(matches!(
        result(ExpansionFacts { journal: text("wal"), ..expansion(&rows) }),
        Err(PersistenceError::UnsupportedSchema)
    ));
    assert!(matches!(
        result(ExpansionFacts { canonical: false, ..expansion(&rows) }),
        Err(PersistenceError::UnsupportedSchema)
    ));
    assert!(matches!(
        result(ExpansionFacts { planned_root: Some(text("/other")), ..expansion(&rows) }),
        Err(PersistenceError::RootMismatch)
    ));
    assert!(matches!(
        result(ExpansionFacts { sound: false, ..expansion(&rows) }),
        Err(PersistenceError::Storage)
    ));
    let mut moved = expansion(&rows);
    moved.library.photos[0].rating = 1;
    assert!(invalid(moved));
    let mut renamed = expansion(&rows);
    renamed.library.albums[0].name = text("Other");
    assert!(invalid(renamed));
    let mut relocated = expansion(&rows);
    relocated.library.originals[0].relative_path = text("elsewhere.JPG");
    assert!(invalid(relocated));
    let mut unnamed = expansion(&rows);
    unnamed.rows[0].named_kind = None;
    assert!(invalid(unnamed));
    let mut orphaned = expansion(&rows);
    orphaned.photo_rows[0].original_id = text("none");
    assert!(invalid(orphaned));
}

#[test]
fn a_step_onto_a_location_in_use_is_a_failure_of_storage() {
    let first = library(&["one.JPG", "shoot/one.JPG"]);
    assert!(matches!(
        expand_library_binding(expansion(&first), &proposal(), &text("/photos")),
        Err(PersistenceError::Storage)
    ));
    let second = library(&["shoot/one.JPG", "one.JPG"]);
    assert!(expand_library_binding(expansion(&second), &proposal(), &text("/photos")).is_ok());
}

#[test]
fn expansions_are_proposed_over_known_schemas_and_roots() {
    let database = |eight: bool, seven: bool, root: Option<&str>| BoundDatabase {
        canonical_eight: eight,
        canonical_seven: seven,
        stored_root: root.map(text),
    };
    assert!(matches!(
        propose_expansion(database(false, false, Some("/a/b")), &text("/a")),
        Err(PersistenceError::UnsupportedSchema)
    ));
    assert!(matches!(
        propose_expansion(database(true, false, None), &text("/a")),
        Err(PersistenceError::InvalidExpansion)
    ));
    assert!(matches!(
        propose_expansion(database(true, false, Some("/other/b")), &text("/a")),
        Err(PersistenceError::InvalidExpansion)
    ));
    assert_eq!(expansion_prefix(&text("/a"), &text("/a/b/c")).unwrap(), "b/c");
    assert!(expansion_prefix(&text("/a"), &text("/ab/c")).is_err());
    assert_eq!(expansion_prefix(&text("a/./b"), &text("a/b//c/d/")).unwrap(), "c/d");
    assert_eq!(expansion_prefix(&text("."), &text("./a")).unwrap(), "a");
    assert!(expansion_prefix(&text("."), &text("a")).is_err());
    assert!(matches!(
        expansion_prefix(&text("/a/b"), &text("/a/b")),
        Err(PersistenceError::InvalidExpansion)
    ));
    assert!(matches!(
        propose_expansion(database(true, false, Some("/a/b/")), &text("/a//b")),
        Err(PersistenceError::InvalidExpansion)
    ));
    assert_eq!(required_root_binding(Some(text("/a"))).unwrap(), "/a");
    assert!(required_root_binding(None).is_err());
    assert!(check_expandable(true, false).is_ok());
    assert!(check_expandable(false, false).is_err());
    assert!(check_same_directory(Some(true), true, Some(true)).is_ok());
    assert!(check_journal(&text("Delete")).is_ok());
    assert!(check_journal(&text("wal")).is_err());
    assert!(check_root_unchanged(Some(text("/a")), &text("/a")).is_ok());
    assert!(matches!(
        check_root_unchanged(Some(text("/b")), &text("/a")),
        Err(PersistenceError::RootMismatch)
    ));
    let rows = library(&["one.JPG"]);
    let plan = expansion_plan(
        &rows.originals.iter().map(expandable).collect(),
        &vec![ExpansionPhoto { id: text("p0"), original_id: text("o0") }],
        &text("up"),
    )
    .unwrap();
    assert_eq!(plan.originals[0].new_path, "up/one.JPG");
    assert_eq!(plan.photo_sort_paths[0].sort_path, "up/one.JPG");
}
