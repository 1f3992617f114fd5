use slipstream_state::album_state::{AlbumState, Member};
use slipstream_state::binding::{AlbumEntry, MemberEntry};
use slipstream_state::capture_bound::CaptureTimeBound;
use slipstream_state::codec::{
    CaptureFact, CaptureMetadataState, CaptureTimeField, OriginalKind, PreviewSource, PreviewState,
    SelectionState,
};
use slipstream_state::error::PersistenceError;
use slipstream_state::photo_change::mutate_photo_state;
use slipstream_state::photo_read::{
    album_browse_target, list_albums, photo_albums, read_photo, read_photos, AlbumBrowseMember,
    PhotoAlbumMembership, StoredAlbum, StoredAlbumMember, StoredDecisions, StoredPhotoRead,
};
use slipstream_state::photo_state::{
    DecisionRow, PhotoStateField, PhotoStateMutation, PhotoStateValue,
};
use slipstream_state::query::{
    candidate_in_folder, candidate_matches, create_album_query, create_photo_query,
    push_query_match, refuse_album_query, refuse_query, AlbumQueryFilter, PhotoQuery,
    PhotoQueryCandidate, PhotoQueryError, PhotoQueryOrder, PhotoQueryProjection,
    PhotoQuerySource, QueryFacts,
};
use slipstream_state::query_source::{query_rows, QueryPhoto};
use slipstream_state::versions::MutationVersions;

fn text(value: &str) -> String {
    value.to_owned()
}

fn pending() -> CaptureFact {
    CaptureFact {
        state: CaptureMetadataState::Pending,
        order_key: None,
        field: None,
        offset_minutes: None,
        source_revision: None,
    }
}

fn known(key: &str, revision: &str, offset: Option<i32>) -> CaptureFact {
    CaptureFact {
        state: CaptureMetadataState::Known,
        order_key: Some(text(key)),
        field: Some(CaptureTimeField::DateTimeOriginal),
        offset_minutes: offset,
        source_revision: Some(text(revision)),
    }
}

fn candidate(id: &str, path: &str, kind: OriginalKind, capture: CaptureFact) -> PhotoQueryCandidate {
    PhotoQueryCandidate {
        photo_id: text(id),
        relative_path: text(path),
        sort_path: text(path),
        original_kind: kind,
        original_available: true,
        capture,
        preview_state: PreviewState::InspectionPending,
        preview_source_revision: None,
        preview_width: None,
        preview_height: None,
    }
}

/// Six Photos in ascending order, and their descending order.
fn published() -> PhotoQueryProjection {
    let candidates = vec![
        candidate(
            "early",
            "shoot/early.JPG",
            OriginalKind::Jpeg,
            known("2026-01-01T09:00:00.000000000", "early-revision", Some(90)),
        ),
        candidate(
            "late",
            "shoot/nested/late.RAF",
            OriginalKind::Raw,
            known("2026-01-01T10:00:00.000000000", "late-revision", None),
        ),
        candidate("upper", "Shoot/upper.JPG", OriginalKind::Jpeg, pending()),
        candidate("one", "a/one.JPG", OriginalKind::Jpeg, pending()),
        candidate("two", "ab/two.JPG", OriginalKind::Jpeg, pending()),
        candidate("untimed", "other/missing.JPG", OriginalKind::Jpeg, pending()),
    ];
    PhotoQueryProjection::new(candidates, vec![1, 0, 2, 3, 4, 5]).unwrap()
}

fn undecided(ids: &[&str]) -> Vec<DecisionRow> {
    ids.iter()
        .map(|id| DecisionRow { photo_id: text(id), selection: text("undecided"), rating: 0 })
        .collect()
}

const EVERY: [&str; 6] = ["early", "late", "upper", "one", "two", "untimed"];

fn plain(source: PhotoQuerySource, order: PhotoQueryOrder) -> PhotoQuery {
    PhotoQuery {
        source,
        selection_state: None,
        rating_minimum: None,
        rating_maximum: None,
        original_kind: None,
        original_available: None,
        captured_from: None,
        captured_before: None,
        order,
    }
}

fn ascending(source: PhotoQuerySource) -> PhotoQuery {
    plain(source, PhotoQueryOrder::CaptureTimeAscending)
}

fn member(album_id: &str, photo_id: &str, position: i64) -> MemberEntry {
    MemberEntry { album_id: text(album_id), photo_id: text(photo_id), position }
}

/// Photos that are not removed, all of them members of one Album.
fn facts(rows: Vec<DecisionRow>) -> QueryFacts {
    let members = rows
        .iter()
        .enumerate()
        .map(|(at, row)| member("album", &row.photo_id, at as i64))
        .collect();
    let photos = rows
        .into_iter()
        .map(|decision| QueryPhoto { decision, removed: false })
        .collect();
    QueryFacts { album_exists: true, photos, members }
}

fn decide(rows: Vec<DecisionRow>, value: PhotoStateValue) -> Vec<DecisionRow> {
    let field = match value {
        PhotoStateValue::Selection(_) => PhotoStateField::SelectionState,
        PhotoStateValue::Rating(_) => PhotoStateField::Rating,
    };
    let mutation = PhotoStateMutation {
        photo_id: text("early"),
        field,
        value,
        expected_current: None,
        album_id: None,
    };
    mutate_photo_state(&rows, false, &mutation).unwrap().rows
}

#[test]
fn bounded_photo_queries_fix_ordered_membership_and_read_current_facts() {
    let projection = published();
    let album_order = create_photo_query(
        &plain(PhotoQuerySource::Album(text("album")), PhotoQueryOrder::AlbumOrder),
        &projection,
        &facts(undecided(&["late", "early"])),
        10,
    )
    .unwrap();
    assert_eq!(album_order, vec![text("late"), text("early")]);

    let rows = decide(undecided(&EVERY), PhotoStateValue::Selection(SelectionState::Selected));
    let rows = decide(rows, PhotoStateValue::Rating(4));
    let query = PhotoQuery {
        source: PhotoQuerySource::Folder(text("shoot")),
        selection_state: Some(SelectionState::Selected),
        rating_minimum: Some(4),
        rating_maximum: Some(5),
        original_kind: Some(OriginalKind::Jpeg),
        original_available: Some(true),
        captured_from: Some(CaptureTimeBound::parse("2026-01-01T08:00:00").unwrap()),
        captured_before: Some(CaptureTimeBound::parse("2026-01-01T10:00:00").unwrap()),
        order: PhotoQueryOrder::CaptureTimeAscending,
    };
    let ids = create_photo_query(&query, &projection, &facts(rows.clone()), 10).unwrap();
    assert_eq!(ids, vec![text("early")]);
    let mut narrow = ascending(PhotoQuerySource::AllPhotos);
    narrow.selection_state = Some(SelectionState::Selected);
    narrow.rating_minimum = Some(4);
    let ids = create_photo_query(&narrow, &projection, &facts(rows.clone()), 1).unwrap();
    assert_eq!(ids, vec![text("early")]);
    for (folder, expected) in [("Shoot", "upper"), ("a", "one")] {
        let query = ascending(PhotoQuerySource::Folder(text(folder)));
        let ids = create_photo_query(&query, &projection, &facts(rows.clone()), 10).unwrap();
        assert_eq!(ids, vec![text(expected)]);
    }
    let query = ascending(PhotoQuerySource::Folder(text("SHOOT")));
    assert_eq!(
        create_photo_query(&query, &projection, &facts(rows.clone()), 10),
        Err(PhotoQueryError::SourceNotFound)
    );

    let rows = decide(rows, PhotoStateValue::Selection(SelectionState::Rejected));
    let query = ascending(PhotoQuerySource::Folder(text("missing")));
    assert_eq!(
        create_photo_query(&query, &projection, &facts(rows.clone()), 10),
        Err(PhotoQueryError::SourceNotFound)
    );
    let query = plain(PhotoQuerySource::AllPhotos, PhotoQueryOrder::CaptureTimeDescending);
    assert_eq!(
        create_photo_query(&query, &projection, &facts(rows.clone()), 2),
        Err(PhotoQueryError::ResultLimitExceeded { limit: 2 })
    );

    let decisions = |id: &str| {
        rows.iter().find(|row| row.photo_id == id).map(|row| StoredDecisions {
            selection_state: row.selection.clone(),
            rating: row.rating,
            saved_edits: false,
        })
    };
    let ids = vec![text("late"), text("early"), text("removed")];
    let stored = vec![decisions("late"), decisions("early"), decisions("removed")];
    let versions = MutationVersions::new(text("epoch"));
    let current = read_photos(&versions, &projection, &stored, &ids).unwrap();
    assert_eq!(current.len(), 3);
    let early = current[1].as_ref().unwrap();
    assert_eq!(early.filename, "early.JPG");
    assert_eq!(early.rating, 4);
    assert_eq!(early.selection_state, SelectionState::Rejected);
    assert_eq!(early.capture.offset_minutes, Some(90));
    assert!(current[2].is_none());
}

#[test]
fn capture_time_bounds_reject_offsets_and_invalid_calendar_values() {
    assert!(CaptureTimeBound::parse("2026-02-28T23:59:59").is_ok());
    assert!(CaptureTimeBound::parse("2024-02-29T00:00:00").is_ok());
    for invalid in [
        "0000-01-01T00:00:00",
        "2026-02-29T00:00:00",
        "2026-01-01T00:00:00Z",
        "2026-01-01T00:00:00+01:00",
        "2026-13-01T00:00:00",
    ] {
        assert!(CaptureTimeBound::parse(invalid).is_err(), "{invalid}");
    }
}

#[test]
fn capture_time_bounds_know_the_calendar() {
    for valid in ["2000-02-29T00:00:00", "2026-12-31T23:59:59", "0001-04-30T12:30:45"] {
        assert!(CaptureTimeBound::parse(valid).is_ok(), "{valid}");
    }
    for invalid in [
        "1900-02-29T00:00:00",
        "2026-04-31T00:00:00",
        "2026-00-01T00:00:00",
        "2026-01-00T00:00:00",
        "2026-01-32T00:00:00",
        "2026-01-01T24:00:00",
        "2026-01-01T00:60:00",
        "2026-01-01T00:00:60",
        "2026-01-01 00:00:00",
        "2026/01/01T00:00:00",
        "2026-01-01T00:00",
        "+026-01-01T00:00:00",
        "",
    ] {
        assert!(CaptureTimeBound::parse(invalid).is_err(), "{invalid}");
    }
}

#[test]
fn queries_are_refused_for_what_they_ask() {
    let projection = published();
    let told = |query: &PhotoQuery, limit: usize| {
        create_photo_query(query, &projection, &facts(undecided(&EVERY)), limit)
    };
    let all = ascending(PhotoQuerySource::AllPhotos);
    assert_eq!(told(&all, 0), Err(PhotoQueryError::Invalid));
    assert_eq!(told(&all, usize::MAX), Err(PhotoQueryError::Invalid));
    assert_eq!(told(&all, 6).unwrap(), EVERY.map(text));
    assert_eq!(told(&all, 5), Err(PhotoQueryError::ResultLimitExceeded { limit: 5 }));

    let mut high = all.clone();
    high.rating_minimum = Some(6);
    assert_eq!(told(&high, 10), Err(PhotoQueryError::Invalid));
    let mut high = all.clone();
    high.rating_maximum = Some(6);
    assert_eq!(told(&high, 10), Err(PhotoQueryError::Invalid));
    let mut crossed = all.clone();
    crossed.rating_minimum = Some(3);
    crossed.rating_maximum = Some(2);
    assert_eq!(told(&crossed, 10), Err(PhotoQueryError::Invalid));
    let mut instant = all.clone();
    instant.captured_from = Some(CaptureTimeBound::parse("2026-01-01T08:00:00").unwrap());
    instant.captured_before = instant.captured_from.clone();
    assert_eq!(told(&instant, 10), Err(PhotoQueryError::Invalid));

    let ordered = plain(PhotoQuerySource::AllPhotos, PhotoQueryOrder::AlbumOrder);
    assert_eq!(told(&ordered, 10), Err(PhotoQueryError::Invalid));
    let up = ascending(PhotoQuerySource::Folder(text("shoot/../a")));
    assert_eq!(told(&up, 10), Err(PhotoQueryError::Invalid));
    let unnamed = ascending(PhotoQuerySource::Album(text("")));
    assert_eq!(told(&unnamed, 10), Err(PhotoQueryError::Invalid));
    assert_eq!(told(&ascending(PhotoQuerySource::Folder(text(""))), 6).unwrap().len(), 6);
    let lost = QueryFacts { album_exists: false, photos: Vec::new(), members: Vec::new() };
    assert_eq!(
        create_photo_query(
            &ascending(PhotoQuerySource::Album(text("album"))),
            &projection,
            &lost,
            10
        ),
        Err(PhotoQueryError::SourceNotFound)
    );
    let mut broken = undecided(&EVERY);
    broken[3].selection = text("maybe");
    assert_eq!(
        create_photo_query(&all, &projection, &facts(broken), 10),
        Err(PhotoQueryError::Storage)
    );
    let mut broken = undecided(&EVERY);
    broken[3].rating = -1;
    assert_eq!(
        create_photo_query(&all, &projection, &facts(broken), 10),
        Err(PhotoQueryError::Storage)
    );
    let down = plain(PhotoQuerySource::AllPhotos, PhotoQueryOrder::CaptureTimeDescending);
    let ids = told(&down, 10).unwrap();
    assert_eq!(ids[0], "late");
    assert_eq!(ids[1], "early");
}

#[test]
fn removed_photos_and_unknown_members_are_left_out() {
    let projection = published();
    let all = ascending(PhotoQuerySource::AllPhotos);
    let ids = create_photo_query(&all, &projection, &facts(undecided(&["one", "early"])), 10);
    assert_eq!(ids.unwrap(), vec![text("early"), text("one")]);
    let album = plain(PhotoQuerySource::Album(text("album")), PhotoQueryOrder::AlbumOrder);
    let ids = create_photo_query(&album, &projection, &facts(undecided(&["gone", "two"])), 10);
    assert_eq!(ids.unwrap(), vec![text("two")]);
    let rows = undecided(&["untimed", "gone", "two", "early", "late"]);
    assert_eq!(
        create_photo_query(&album, &projection, &facts(rows.clone()), 10).unwrap(),
        vec![text("untimed"), text("two"), text("early"), text("late")]
    );
    assert_eq!(
        create_photo_query(&album, &projection, &facts(rows), 3),
        Err(PhotoQueryError::ResultLimitExceeded { limit: 3 })
    );
}

#[test]
fn removed_photos_leave_every_query_source() {
    let projection = published();
    let mut known = facts(undecided(&EVERY));
    known.members = vec![
        member("album", "late", 7),
        member("other", "one", 0),
        member("album", "early", 2),
        member("album", "upper", 3),
        member("album", "gone", 1),
    ];
    let told = |known: &QueryFacts, query: &PhotoQuery| {
        create_photo_query(query, &projection, known, 10).unwrap()
    };
    let all = ascending(PhotoQuerySource::AllPhotos);
    let folder = ascending(PhotoQuerySource::Folder(text("shoot")));
    let by_time = ascending(PhotoQuerySource::Album(text("album")));
    let by_place = plain(PhotoQuerySource::Album(text("album")), PhotoQueryOrder::AlbumOrder);
    assert_eq!(told(&known, &all), EVERY.map(text));
    assert_eq!(told(&known, &folder), ["early", "late"]);
    assert_eq!(told(&known, &by_time), ["early", "late", "upper"]);
    assert_eq!(told(&known, &by_place), ["early", "upper", "late"]);

    known.photos[0].removed = true;
    assert_eq!(told(&known, &all), ["late", "upper", "one", "two", "untimed"]);
    assert_eq!(told(&known, &folder), ["late"]);
    assert_eq!(told(&known, &by_time), ["late", "upper"]);
    assert_eq!(told(&known, &by_place), ["upper", "late"]);

    let rows = query_rows(&by_place.source, &known.photos, &known.members);
    let ids: Vec<&str> = rows.iter().map(|row| row.photo_id.as_str()).collect();
    assert_eq!(ids, ["upper", "late"]);
    assert_eq!(query_rows(&all.source, &known.photos, &known.members).len(), 5);
    assert_eq!(
        refuse_query(&by_place, &projection.candidates, false, 10),
        Some(PhotoQueryError::SourceNotFound)
    );
}

#[test]
fn candidates_are_matched_by_what_is_known_of_them() {
    let projection = published();
    let early = projection.get("early").unwrap();
    let untimed = projection.get("untimed").unwrap();
    assert!(projection.get("unknown").is_none());
    assert!(candidate_in_folder(early, &text("shoot")));
    assert!(!candidate_in_folder(early, &text("sho")));
    let mut query = ascending(PhotoQuerySource::AllPhotos);
    assert!(candidate_matches(&query, untimed, SelectionState::Undecided, 0));
    query.captured_from = Some(CaptureTimeBound::parse("2026-01-01T09:00:00").unwrap());
    assert!(candidate_matches(&query, early, SelectionState::Undecided, 0));
    assert!(!candidate_matches(&query, untimed, SelectionState::Undecided, 0));
    query.captured_before = Some(CaptureTimeBound::parse("2026-01-01T09:00:01").unwrap());
    assert!(candidate_matches(&query, early, SelectionState::Undecided, 0));
    query.original_available = Some(false);
    assert!(!candidate_matches(&query, early, SelectionState::Undecided, 0));
    let mut ids = vec![text("one")];
    assert_eq!(push_query_match(&mut ids, "two", 2), Ok(()));
    assert_eq!(
        push_query_match(&mut ids, "three", 2),
        Err(PhotoQueryError::ResultLimitExceeded { limit: 2 })
    );
}

#[test]
fn projections_name_each_photo_once() {
    let twice = vec![
        candidate("one", "a.JPG", OriginalKind::Jpeg, pending()),
        candidate("one", "b.JPG", OriginalKind::Jpeg, pending()),
    ];
    assert!(PhotoQueryProjection::new(twice, vec![0, 1]).is_none());
    let pair = || {
        vec![
            candidate("one", "a.JPG", OriginalKind::Jpeg, pending()),
            candidate("two", "b.JPG", OriginalKind::Jpeg, pending()),
        ]
    };
    assert!(PhotoQueryProjection::new(pair(), vec![0]).is_none());
    assert!(PhotoQueryProjection::new(pair(), vec![0, 0]).is_none());
    assert!(PhotoQueryProjection::new(pair(), vec![0, 2]).is_none());
    assert!(PhotoQueryProjection::new(pair(), vec![1, 0]).is_some());
}

#[test]
fn album_queries_are_filtered_and_bounded() {
    let entry = |id: &str, name: &str, created_at: i64| AlbumEntry {
        id: text(id),
        name: text(name),
        created_at,
    };
    let albums = vec![entry("3", "City", 9), entry("2", "Beach", 5), entry("1", "Alps", 5)];
    let members = vec![
        member("3", "photo", 0),
        member("1", "another", 0),
        member("2", "photo", 4),
    ];
    let told = |filter: &AlbumQueryFilter, limit: usize| {
        create_album_query(filter, &albums, &members, limit)
    };
    let all = told(&AlbumQueryFilter::All, 3).unwrap();
    assert_eq!(all, vec![text("1"), text("2"), text("3")]);
    assert_eq!(
        told(&AlbumQueryFilter::All, 2),
        Err(PhotoQueryError::ResultLimitExceeded { limit: 2 })
    );
    let named = AlbumQueryFilter::ExactName(text("bEACH"));
    assert_eq!(told(&named, 3).unwrap(), vec![text("2")]);
    let holding = AlbumQueryFilter::ContainsPhoto(text("photo"));
    assert_eq!(told(&holding, 3).unwrap(), vec![text("2"), text("3")]);
    assert_eq!(told(&AlbumQueryFilter::All, 0), Err(PhotoQueryError::Invalid));
    assert_eq!(
        told(&AlbumQueryFilter::ContainsPhoto(text("")), 3),
        Err(PhotoQueryError::Invalid)
    );
    assert_eq!(refuse_album_query(&AlbumQueryFilter::All, 3), None);
}

fn stored_photo() -> StoredPhotoRead {
    StoredPhotoRead {
        id: text("photo"),
        relative_path: text("shoot/day/one.RAF"),
        kind: text("raw"),
        original_available: 1,
        selection_state: text("selected"),
        rating: 3,
        capture_state: text("known"),
        capture_order_key: Some(text("2026-01-01T09:00:00.000000000")),
        capture_field: Some(text("date-time-original")),
        capture_offset_minutes: Some(-60),
        capture_source_revision: Some(text("revision")),
        preview_state: text("ready"),
        preview_source_revision: Some(text("preview-revision")),
        preview_width: Some(1600),
        preview_height: Some(1200),
        saved_edits: 1,
    }
}

#[test]
fn a_photo_is_told_as_it_is_stored() {
    let versions = MutationVersions::new(text("epoch"));
    let read = read_photo(&versions, &Some(stored_photo())).unwrap().unwrap();
    assert_eq!(read.filename, "one.RAF");
    assert_eq!(read.original_kind, OriginalKind::Raw);
    assert!(read.original_available);
    assert_eq!(read.selection_state, SelectionState::Selected);
    assert_eq!(read.rating, 3);
    assert_eq!(read.decision_version, versions.photo("photo"));
    assert_eq!(read.capture.offset_minutes, Some(-60));
    assert_eq!(read.preview_source, Some(PreviewSource::RawEmbeddedJpeg));
    assert_eq!(read.preview_width, Some(1600));
    assert!(read.has_saved_edits);

    let mut waiting = stored_photo();
    waiting.preview_state = text("inspection-pending");
    let read = read_photo(&versions, &Some(waiting)).unwrap().unwrap();
    assert_eq!(read.preview_source, None);
    assert_eq!(read.preview_source_revision, None);
    assert_eq!(read.preview_width, None);
    assert!(matches!(read_photo(&versions, &None), Ok(None)));
}

#[test]
fn a_photo_that_cannot_be_read_is_a_failure_of_storage() {
    let versions = MutationVersions::new(text("epoch"));
    let breakages: [fn(&mut StoredPhotoRead); 8] = [
        |row| row.kind = text("tiff"),
        |row| row.preview_state = text("almost"),
        |row| row.preview_width = Some(-1),
        |row| row.selection_state = text("maybe"),
        |row| row.rating = 256,
        |row| row.capture_state = text("guessed"),
        |row| row.capture_field = Some(text("unknown")),
        |row| row.capture_offset_minutes = Some(i64::MAX),
    ];
    for break_row in breakages {
        let mut row = stored_photo();
        break_row(&mut row);
        assert!(matches!(
            read_photo(&versions, &Some(row)),
            Err(PersistenceError::Storage)
        ));
    }
}

fn album(id: &str, name: &str, photos: &[&str], saved: Option<&str>) -> AlbumState {
    AlbumState {
        id: text(id),
        name: text(name),
        created_at: 0,
        members: photos
            .iter()
            .enumerate()
            .map(|(position, id)| Member {
                photo_id: text(id),
                position: position as i64,
                removed: false,
            })
            .collect(),
        saved_photo_id: saved.map(text),
    }
}

#[test]
fn photos_and_albums_tell_of_each_other() {
    let albums = vec![
        album("1", "Alps", &["a", "b"], Some("b")),
        album("2", "Beach", &["b"], None),
    ];
    assert_eq!(photo_albums(false, &albums, &text("b")), None);
    assert_eq!(
        photo_albums(true, &albums, &text("b")).unwrap(),
        vec![
            PhotoAlbumMembership { album_id: text("1"), album_name: text("Alps") },
            PhotoAlbumMembership { album_id: text("2"), album_name: text("Beach") },
        ]
    );
    let target = album_browse_target(&Some(albums[0].clone()), &vec![text("a")]).unwrap();
    assert_eq!(
        target.members,
        vec![
            AlbumBrowseMember { photo_id: text("a"), available: true },
            AlbumBrowseMember { photo_id: text("b"), available: false },
        ]
    );
    assert_eq!(target.saved_photo_id, Some(text("b")));
    assert_eq!(album_browse_target(&None, &Vec::new()), None);
}

#[test]
fn albums_are_listed_with_their_members() {
    let member = |id: &str, position: i64, removed: bool| StoredAlbumMember {
        photo_id: text(id),
        position,
        available: 1,
        selection_state: text("rejected"),
        rating: 2,
        removed,
    };
    let stored = StoredAlbum {
        id: text("1"),
        name: text("Alps"),
        created_at: 4,
        last_reviewed_photo_id: Some(text("b")),
        members: vec![member("a", 0, true), member("b", 1, false)],
    };
    let older = StoredAlbum {
        id: text("2"),
        name: text("Beach"),
        created_at: 3,
        last_reviewed_photo_id: None,
        members: vec![member("d", 8, false), member("c", 2, false)],
    };
    let both = list_albums(&vec![stored.clone(), older]).unwrap();
    assert_eq!(both[0].name, "Beach");
    assert_eq!(both[1].name, "Alps");
    let places: Vec<&str> = both[0].members.iter().map(|m| m.photo_id.as_str()).collect();
    assert_eq!(places, ["c", "d"]);
    let listed = list_albums(&vec![stored.clone()]).unwrap();
    assert_eq!(listed[0].name, "Alps");
    assert_eq!(listed[0].last_reviewed_photo_id, Some(text("b")));
    let kept = listed[0].members.iter().find(|member| member.photo_id == "b").unwrap();
    assert_eq!(kept.position, 1);
    assert_eq!(kept.selection_state, SelectionState::Rejected);
    let mut broken = stored;
    broken.members[1].rating = 300;
    assert!(matches!(list_albums(&vec![broken]), Err(PersistenceError::Storage)));
}
