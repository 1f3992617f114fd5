use slipstream_state::binary::Real;
use slipstream_state::codec::{
    capture_state_name, error_category_name, original_kind_name, parse_capture_fact,
    parse_capture_state, parse_category, parse_dimension, parse_error_category, parse_kind,
    parse_preview_state, parse_selection_state, preview_state_name, selection_state_value,
    valid_capture_order_key, validate_capture_fact, CaptureFact, CaptureMetadataState,
    CaptureTimeField, OriginalErrorCategory, OriginalKind, PreviewSource, PreviewState,
    SelectionState,
};
use slipstream_state::error::{
    album_write_error_from_mutation, album_write_error_from_persistence,
    mutation_error_from_persistence, photo_decision_write_error_from_mutation,
    photo_decision_write_error_from_persistence, AlbumWriteError, MutationError, PersistenceError,
    PhotoDecisionWriteError, StateError,
};
use slipstream_state::identity::{append_hex, hex_text, reserve_library_id, unix_millis, uuid_v4};
use slipstream_state::json::{digest_text, write_json_opt_text};
use slipstream_state::numeral::{
    decimal_text, lower_char, parse_i64, same_name, signed_decimal_text,
};
use slipstream_state::order::{comes_before, insert_ascending};
use slipstream_state::path::{
    file_name, has_char, path_in_folder, split_components, split_path, valid_folder_location,
};
use slipstream_state::sorting::{sorted_rows, SortKey};
use slipstream_state::text::{
    any_blank, contains_text, distinct_texts, is_blank, is_control, is_white, length_before_nul,
    same_texts, trim_text,
};

fn text(value: &str) -> String {
    value.to_owned()
}

#[test]
fn new_library_id_collision_is_rejected_before_insertion() {
    let originals = vec![text("collision")];
    let mut reserved = Vec::new();
    assert!(matches!(
        reserve_library_id(&originals, &Vec::new(), &mut reserved, text("collision")),
        Err(PersistenceError::IdCollision)
    ));
    assert_eq!(originals.len(), 1);
    assert!(reserved.is_empty());
}

#[test]
fn identities_are_reserved_once() {
    let photos = vec![text("photo")];
    let mut reserved = Vec::new();
    assert!(matches!(
        reserve_library_id(&Vec::new(), &photos, &mut reserved, text("photo")),
        Err(PersistenceError::IdCollision)
    ));
    let id = reserve_library_id(&Vec::new(), &photos, &mut reserved, text("new")).unwrap();
    assert_eq!(id, "new");
    assert_eq!(reserved, vec![text("new")]);
    assert!(matches!(
        reserve_library_id(&Vec::new(), &photos, &mut reserved, text("new")),
        Err(PersistenceError::IdCollision)
    ));
}

#[test]
fn uuids_carry_their_version_and_variant() {
    assert_eq!(uuid_v4(&[0; 16]), "00000000-0000-4000-8000-000000000000");
    assert_eq!(uuid_v4(&[0xff; 16]), "ffffffff-ffff-4fff-bfff-ffffffffffff");
    let mut random = [0u8; 16];
    for (i, byte) in random.iter_mut().enumerate() {
        *byte = i as u8 * 17;
    }
    assert_eq!(uuid_v4(&random), "00112233-4455-4677-8899-aabbccddeeff");
}

#[test]
fn bytes_are_written_in_hexadecimal() {
    assert_eq!(hex_text(&vec![0x00, 0x7f, 0xa5, 0xff]), "007fa5ff");
    let mut written = text("x");
    append_hex(&mut written, 0x0b);
    assert_eq!(written, "x0b");
}

#[test]
fn clocks_before_the_epoch_and_past_the_end_are_zero() {
    assert_eq!(unix_millis(Some(1_767_225_600_123)), 1_767_225_600_123);
    assert_eq!(unix_millis(Some(i64::MAX as u128)), i64::MAX);
    assert_eq!(unix_millis(Some(i64::MAX as u128 + 1)), 0);
    assert_eq!(unix_millis(None), 0);
}

#[test]
fn digests_are_the_standard_ones() {
    assert_eq!(
        digest_text(&text("")),
        "e3b0c44298fc1c149afbf4c8996fb92427ae41e4649b934ca495991b7852b855"
    );
    assert_eq!(
        digest_text(&text("abc")),
        "ba7816bf8f01cfea414140de5dae2223b00361a396177a9cb410ff61f20015ad"
    );
}

#[test]
fn optional_texts_are_written_as_json() {
    assert_eq!(write_json_opt_text(&None), "null");
    assert_eq!(write_json_opt_text(&Some(text("plain"))), "\"plain\"");
    assert_eq!(write_json_opt_text(&Some(text("a\"b\\c\n"))), "\"a\\\"b\\\\c\\n\"");
}

#[test]
fn numbers_are_written_and_read_in_decimal() {
    assert_eq!(decimal_text(0), "0");
    assert_eq!(decimal_text(u64::MAX), "18446744073709551615");
    assert_eq!(signed_decimal_text(-42), "-42");
    assert_eq!(signed_decimal_text(i64::MIN), "-9223372036854775808");
    for value in [0, 7, -7, i64::MAX, i64::MIN] {
        assert_eq!(parse_i64(&signed_decimal_text(value)), Some(value));
    }
    assert_eq!(parse_i64(&text("+12")), Some(12));
    assert_eq!(parse_i64(&text("007")), Some(7));
    for broken in ["", "-", "+", "1a", " 1", "9223372036854775808", "-9223372036854775809"] {
        assert_eq!(parse_i64(&text(broken)), None, "{broken}");
    }
}

#[test]
fn names_fold_ascii_letters_alone() {
    assert_eq!(lower_char('Q'), 'q');
    assert_eq!(lower_char('\u{c4}'), '\u{c4}');
    assert!(same_name(&text("Alps 2026"), &text("aLPS 2026")));
    assert!(!same_name(&text("\u{c4}lps"), &text("\u{e4}lps")));
    assert!(!same_name(&text("Alps"), &text("Alps ")));
}

#[test]
fn paths_are_split_at_slashes() {
    assert_eq!(split_path(&text("a//b/")), vec![text("a"), text(""), text("b"), text("")]);
    assert_eq!(split_components(&text("/a//./b/")), vec![text("a"), text("b")]);
    assert_eq!(file_name(&text("shoot/day/one.RAF")), "one.RAF");
    assert_eq!(file_name(&text("one.RAF")), "one.RAF");
    assert!(has_char(&text("a\0"), '\0'));
    assert!(path_in_folder(&text("shoot/one.JPG"), &text("shoot")));
    assert!(path_in_folder(&text("shoot/one.JPG"), &text("")));
    assert!(!path_in_folder(&text("shootout/one.JPG"), &text("shoot")));
    assert!(valid_folder_location(&text("shoot/day")));
    for broken in ["/shoot", "shoot/", "shoot//day", "shoot/../day", "./shoot", "a\0b"] {
        assert!(!valid_folder_location(&text(broken)), "{broken}");
    }
}

#[test]
fn texts_are_trimmed_and_compared() {
    assert_eq!(trim_text(&text(" \t Alps \u{a0}\n")), "Alps");
    assert_eq!(trim_text(&text(" \u{2003} ")), "");
    assert!(is_blank(&text("\u{3000}")));
    assert!(!is_blank(&text("x")));
    assert!(any_blank(&vec![text("x"), text(" ")]));
    assert!(is_white('\u{85}') && !is_white('\u{200b}'));
    assert!(is_control('\u{7f}') && is_control('\u{9f}') && !is_control(' '));
    assert!(contains_text(&vec![text("a"), text("b")], &text("b")));
    assert!(distinct_texts(&vec![text("a"), text("b")]));
    assert!(!distinct_texts(&vec![text("a"), text("b"), text("a")]));
    assert!(same_texts(&vec![text("a")], &vec![text("a")]));
    assert!(!same_texts(&vec![text("a")], &vec![text("a"), text("b")]));
    assert_eq!(length_before_nul(&text("ab\0cd")), 2);
    assert_eq!(length_before_nul(&text("abcd")), 4);
}

#[test]
fn texts_are_ordered_by_their_characters() {
    assert!(comes_before(&text("Z"), &text("a")));
    assert!(comes_before(&text("ab"), &text("abc")));
    assert!(!comes_before(&text("abc"), &text("abc")));
    assert!(comes_before(&text("\u{ffff}"), &text("\u{10000}")));
    let mut list = vec![text("a"), text("c")];
    insert_ascending(&mut list, &text("b"));
    assert_eq!(list, vec![text("a"), text("b"), text("c")]);
}

#[test]
fn rows_are_sorted_by_rank_and_texts() {
    let key = |rank: u64, texts: &[&str]| SortKey {
        rank,
        texts: texts.iter().map(|value| text(value)).collect(),
    };
    let keys = vec![key(1, &["a", "x"]), key(0, &["b", "y"]), key(0, &["a", "z"]), key(1, &["a", "w"])];
    assert_eq!(sorted_rows(&keys), vec![2, 1, 3, 0]);
    assert_eq!(sorted_rows(&Vec::new()), Vec::<usize>::new());
}

#[test]
fn stored_names_read_back() {
    for state in [SelectionState::Undecided, SelectionState::Selected, SelectionState::Rejected] {
        assert_eq!(parse_selection_state(&text(selection_state_value(state))), Some(state));
    }
    for kind in [OriginalKind::Raw, OriginalKind::Jpeg] {
        assert_eq!(parse_kind(&text(original_kind_name(kind))), Some(kind));
    }
    for category in [OriginalErrorCategory::Unreadable, OriginalErrorCategory::Changed] {
        assert_eq!(parse_category(&text(error_category_name(category))), Some(category));
    }
    for state in [
        CaptureMetadataState::Pending,
        CaptureMetadataState::Known,
        CaptureMetadataState::Missing,
        CaptureMetadataState::Invalid,
        CaptureMetadataState::Failed,
    ] {
        assert_eq!(parse_capture_state(&text(capture_state_name(state))), Some(state));
    }
    for state in [
        PreviewState::InspectionPending,
        PreviewState::Ready,
        PreviewState::Failed,
        PreviewState::Unavailable,
    ] {
        assert_eq!(parse_preview_state(&text(preview_state_name(state))), Some(state));
    }
    for field in [CaptureTimeField::DateTimeOriginal, CaptureTimeField::DateTimeDigitized] {
        assert_eq!(
            CaptureTimeField::parse_database_name(&text(field.database_name())),
            Some(field)
        );
    }
    assert_eq!(parse_selection_state(&text("Selected")), None);
    assert_eq!(parse_error_category(&None), Some(None));
    assert_eq!(parse_error_category(&Some(text("odd"))), None);
    assert_eq!(parse_dimension(None), Some(None));
    assert_eq!(parse_dimension(Some(4_294_967_295)), Some(Some(u32::MAX)));
    assert_eq!(parse_dimension(Some(4_294_967_296)), None);
    assert_eq!(OriginalKind::Raw.preview_source(), PreviewSource::RawEmbeddedJpeg);
    assert_eq!(PreviewSource::JpegOriginal.legacy_database_name(), "matching-jpeg");
}

#[test]
fn capture_facts_agree_with_their_state() {
    let known = CaptureFact {
        state: CaptureMetadataState::Known,
        order_key: Some(text("2026-01-01T09:00:00.000000000")),
        field: Some(CaptureTimeField::DateTimeOriginal),
        offset_minutes: Some(90),
        source_revision: Some(text("revision")),
    };
    assert!(validate_capture_fact(&known).is_ok());
    let mut keyless = known.clone();
    keyless.order_key = None;
    assert!(validate_capture_fact(&keyless).is_err());
    let mut pending = known.clone();
    pending.state = CaptureMetadataState::Pending;
    assert!(validate_capture_fact(&pending).is_err());
    assert!(valid_capture_order_key(&text("2026-01-01T09:00:00.000000000")));
    assert!(!valid_capture_order_key(&text("2026-01-01T09:00:00")));
    assert!(!valid_capture_order_key(&text("2026-01-01T09:00:00.00000000x")));
    assert_eq!(
        parse_capture_fact(
            &text("known"),
            known.order_key.clone(),
            &Some(text("date-time-original")),
            Some(90),
            known.source_revision.clone()
        ),
        Some(known)
    );
    assert_eq!(parse_capture_fact(&text("odd"), None, &None, None, None), None);
}

#[test]
fn stored_reals_are_told_apart_by_their_bits() {
    let number = |value: f64| Real { bits: value.to_bits() };
    assert!(number(-1.0).is_negative());
    assert!(!number(-0.0).is_negative());
    assert!(number(-0.0).is_nonnegative());
    assert!(!number(f64::NAN).is_nonnegative());
    assert!(number(f64::MAX).is_finite());
    assert!(!number(f64::INFINITY).is_finite());
    assert!(number(0.0).same(number(-0.0)));
    assert!(!number(f64::NAN).same(number(f64::NAN)));
    assert!(number(1.5).same(number(1.5)));
    assert!(!number(1.5).same(number(1.25)));
}

#[test]
fn errors_say_what_is_wrong() {
    assert_eq!(StateError::InvalidStatePath.message(), "SQLite state path is invalid");
    assert_eq!(StateError::SidecarPresent.message(), "SQLite sidecar requires operator recovery");
    assert_eq!(StateError::Io("lost").message(), "lost");
    assert_eq!(
        PersistenceError::State(StateError::UnsafeDatabase).message(),
        "SQLite database inode is not safely owned"
    );
    assert_eq!(PersistenceError::Storage.message(), "SQLite persistence failed");
    assert_eq!(
        PersistenceError::NewerSchema.message(),
        "SQLite schema version is newer than this Slipstream build"
    );
    assert_eq!(MutationError::NotFound.message(), "Mutation target not found");
    assert_eq!(
        AlbumWriteError::LimitExceeded { limit: 1, actual: 2 }.message(),
        "Album write exceeds its limit"
    );
    assert_eq!(
        PhotoDecisionWriteError::Invalid.message(),
        "Photo decision write request is not valid"
    );
}

#[test]
fn errors_are_told_to_writers() {
    assert!(matches!(
        PersistenceError::from(StateError::SidecarPresent),
        PersistenceError::RecoveryRequired
    ));
    assert!(matches!(
        PersistenceError::from(StateError::UnsafeSidecar),
        PersistenceError::State(StateError::UnsafeSidecar)
    ));
    assert_eq!(
        mutation_error_from_persistence(PersistenceError::Saturated),
        MutationError::Saturated
    );
    assert_eq!(
        mutation_error_from_persistence(PersistenceError::Closed),
        MutationError::Closed
    );
    assert_eq!(
        mutation_error_from_persistence(PersistenceError::Storage),
        MutationError::Persistence
    );
    assert_eq!(
        album_write_error_from_persistence(PersistenceError::Saturated),
        AlbumWriteError::Saturated
    );
    assert_eq!(
        album_write_error_from_persistence(PersistenceError::OwnerStopped),
        AlbumWriteError::Persistence
    );
    assert_eq!(
        album_write_error_from_mutation(MutationError::Closed),
        AlbumWriteError::Closed
    );
    assert_eq!(
        photo_decision_write_error_from_persistence(PersistenceError::Closed),
        PhotoDecisionWriteError::Closed
    );
    assert_eq!(
        photo_decision_write_error_from_mutation(MutationError::Invalid),
        PhotoDecisionWriteError::Persistence
    );
}
