use slipstream_state::admission::{
    admit_creation, admit_directory, admit_sidecars, creation_failure, database_exists,
    inspect_sidecars, prepare_database, remove_created_empty_database, safe_identity,
    sidecar_suffixes, sqlite_immutable_uri, sqlite_path, state_path_parts, verify_database,
    walk_state_path, DatabaseName, FileFacts, FileFinding, StateFileIdentity, WalkFinding,
    WalkStep,
};
use slipstream_state::error::StateError;
use slipstream_state::path::reject_under_library;

const ME: u32 = 1000;

fn text(value: &str) -> String {
    value.to_owned()
}

fn file(mode: u32) -> FileFacts {
    FileFacts { device: 5, inode: 77, uid: ME, mode, link_count: 1, size: 0 }
}

fn found(facts: FileFacts) -> FileFinding {
    FileFinding::Found(Some(facts))
}

const REGULAR: u32 = 0o100600;

#[test]
fn a_database_name_names_one_file() {
    for name in ["library.sqlite", "...", "..x", "a", "library.sqlite/", "library.sqlite/."] {
        assert!(DatabaseName::parse(name.as_bytes().to_vec()).is_ok(), "{name}");
    }
    for name in ["", ".", "..", "/", "/a", "a/b", "a/..", "./a", "a\0b", "a/./b"] {
        assert_eq!(
            DatabaseName::parse(name.as_bytes().to_vec()),
            Err(StateError::InvalidDatabaseName),
            "{name}"
        );
    }
    let name = DatabaseName::parse(b"library.sqlite".to_vec()).unwrap();
    assert_eq!(name.bytes, b"library.sqlite");
}

#[test]
fn state_lies_outside_the_library() {
    let library = text("/data/originals");
    for path in ["/data/originals", "/data/originals/", "/data/originals/missing/state"] {
        assert_eq!(
            state_path_parts(&library, &text(path)),
            Err(StateError::UnderLibraryRoot),
            "{path}"
        );
    }
    assert_eq!(
        state_path_parts(&library, &text("/data//state/./one/")).unwrap(),
        vec![text("data"), text("state"), text("one")]
    );
    assert!(state_path_parts(&library, &text("/data/originals-state")).is_ok());
    for path in ["", "state", "./state", "/", "/data/../state", "//"] {
        assert_eq!(
            state_path_parts(&library, &text(path)),
            Err(StateError::InvalidStatePath),
            "{path}"
        );
    }
    assert_eq!(
        state_path_parts(&library, &text("/data/originals/../state")),
        Err(StateError::UnderLibraryRoot)
    );
}

#[test]
fn paths_are_compared_part_by_part() {
    let refused = |library: &str, path: &str| {
        reject_under_library(&text(library), &text(path)) == Err(StateError::UnderLibraryRoot)
    };
    assert!(refused("/a/b", "/a/b"));
    assert!(refused("/a/b", "/a//b/./c"));
    assert!(refused("/a/b/", "/a/b"));
    assert!(refused("/", "/a"));
    assert!(refused("a", "a/b"));
    assert!(!refused("/a/b", "/a/bc"));
    assert!(!refused("/a/b", "/a"));
    assert!(!refused("a", "/a"));
    assert!(!refused("/a", "a"));
    assert!(!refused("a", "./a"));
}

#[test]
fn the_way_down_stays_outside_the_library() {
    let library = text("/data/originals");
    let step = |finding: WalkFinding| walk_state_path(&library, &finding);
    assert_eq!(step(WalkFinding::Opened(Some(text("/data/state")))), Ok(WalkStep::Descend));
    assert_eq!(step(WalkFinding::Missing(Some(text("/data/state")))), Ok(WalkStep::Create));
    assert_eq!(
        step(WalkFinding::Opened(Some(text("/data/originals/a")))),
        Err(StateError::UnderLibraryRoot)
    );
    assert_eq!(
        step(WalkFinding::Missing(Some(text("/data/originals")))),
        Err(StateError::UnderLibraryRoot)
    );
    for finding in [WalkFinding::Refused, WalkFinding::Opened(None), WalkFinding::Missing(None)] {
        assert_eq!(step(finding), Err(StateError::UnsafeStateDirectory));
    }
    assert_eq!(
        creation_failure().message(),
        "SQLite state directory could not be created"
    );
}

#[test]
fn state_directories_are_safely_owned() {
    assert_eq!(admit_directory(&Some(file(0o040700)), ME), Ok(()));
    assert_eq!(admit_directory(&Some(file(0o040755)), ME), Ok(()));
    let refused = Err(StateError::UnsafeStateDirectory);
    assert_eq!(admit_directory(&Some(file(0o040777)), ME), refused);
    assert_eq!(admit_directory(&Some(file(0o040720)), ME), refused);
    assert_eq!(admit_directory(&Some(file(REGULAR)), ME), refused);
    assert_eq!(admit_directory(&Some(file(0o040700)), 0), refused);
    assert_eq!(admit_directory(&None, ME), refused);
}

#[test]
fn databases_are_prepared_and_verified() {
    let identity = prepare_database(&found(file(REGULAR)), ME).unwrap();
    let expected = StateFileIdentity {
        device: 5,
        inode: 77,
        uid: ME,
        mode: REGULAR,
        link_count: 1,
    };
    assert_eq!(identity, expected);
    assert_eq!(safe_identity(&file(REGULAR), ME), Some(expected));
    assert_eq!(verify_database(&found(file(REGULAR)), ME, identity), Ok(()));

    let mut linked = file(REGULAR);
    linked.link_count = 2;
    let fifo = file(0o010600);
    for unsafe_file in [linked, fifo, file(0o100620), file(0o100602)] {
        assert_eq!(safe_identity(&unsafe_file, ME), None);
        assert_eq!(
            prepare_database(&found(unsafe_file), ME),
            Err(StateError::UnsafeDatabase)
        );
        assert_eq!(
            verify_database(&found(unsafe_file), ME, identity),
            Err(StateError::ChangedDatabase)
        );
    }
    assert_eq!(
        prepare_database(&FileFinding::Refused, ME),
        Err(StateError::UnsafeDatabase)
    );
    let mut swapped = file(REGULAR);
    swapped.inode = 78;
    assert_eq!(
        verify_database(&found(swapped), ME, identity),
        Err(StateError::ChangedDatabase)
    );
    assert_eq!(
        verify_database(&FileFinding::Found(None), ME, identity),
        Err(StateError::ChangedDatabase)
    );
    assert_eq!(
        verify_database(&FileFinding::Missing, ME, identity),
        Err(StateError::UnsafeDatabase)
    );
}

#[test]
fn only_a_database_created_for_nothing_is_removed() {
    let identity = prepare_database(&found(file(REGULAR)), ME).unwrap();
    assert_eq!(remove_created_empty_database(&found(file(REGULAR)), ME, identity), Ok(()));
    let mut written = file(REGULAR);
    written.size = 4096;
    assert_eq!(
        remove_created_empty_database(&found(written), ME, identity),
        Err(StateError::ChangedDatabase)
    );
    let mut swapped = file(REGULAR);
    swapped.device = 6;
    assert_eq!(
        remove_created_empty_database(&found(swapped), ME, identity),
        Err(StateError::ChangedDatabase)
    );
    assert_eq!(
        remove_created_empty_database(&FileFinding::Missing, ME, identity),
        Err(StateError::UnsafeDatabase)
    );
}

#[test]
fn every_sidecar_is_recovered_before_a_database_is_created() {
    assert_eq!(sidecar_suffixes(), vec![text("-journal"), text("-wal"), text("-shm")]);
    let none = vec![FileFinding::Missing; 3];
    assert_eq!(inspect_sidecars(&none, ME), Ok(false));
    assert_eq!(admit_sidecars(&none, ME), Ok(()));
    assert_eq!(admit_creation(&none, &FileFinding::Missing, ME), Ok(true));
    assert_eq!(admit_creation(&none, &found(file(REGULAR)), ME), Ok(false));
    assert_eq!(
        admit_creation(&none, &FileFinding::Refused, ME),
        Err(StateError::UnsafeDatabase)
    );
    for i in 0..3 {
        let mut findings = none.clone();
        findings[i] = found(file(REGULAR));
        assert_eq!(inspect_sidecars(&findings, ME), Ok(true));
        assert_eq!(admit_sidecars(&findings, ME), Err(StateError::SidecarPresent));
        assert_eq!(
            admit_creation(&findings, &FileFinding::Missing, ME),
            Err(StateError::SidecarPresent)
        );
        for unsafe_sidecar in [
            FileFinding::Refused,
            FileFinding::Found(None),
            found(file(0o010600)),
        ] {
            findings[i] = unsafe_sidecar;
            assert_eq!(admit_sidecars(&findings, ME), Err(StateError::UnsafeSidecar));
            assert_eq!(
                admit_creation(&findings, &FileFinding::Missing, ME),
                Err(StateError::UnsafeSidecar)
            );
        }
    }
    assert_eq!(database_exists(&FileFinding::Missing), Ok(false));
    assert_eq!(database_exists(&FileFinding::Found(None)), Ok(true));
    assert_eq!(
        database_exists(&FileFinding::Refused),
        Err(StateError::UnsafeDatabase)
    );
}

#[test]
fn databases_are_addressed_under_the_descriptor_of_their_directory() {
    let name = DatabaseName::parse(b"my library.sqlite".to_vec()).unwrap();
    let path = sqlite_path(17, &name);
    assert_eq!(path, b"/proc/self/fd/17/my library.sqlite");
    assert_eq!(
        sqlite_immutable_uri(&path),
        "file:/proc/self/fd/17/my%20library.sqlite?mode=ro&immutable=1"
    );
    assert_eq!(
        sqlite_immutable_uri(&vec![0xff, 0x25, 0x7e, 0x3f]),
        "file:%FF%25~%3F?mode=ro&immutable=1"
    );
}
