use slipstream_state::album_checked::list_album_summaries;
use slipstream_state::album_state::{AlbumState, Member};
use slipstream_state::binding::MemberEntry;
use slipstream_state::codec::{CaptureFact, CaptureMetadataState, OriginalKind, PreviewState};
use slipstream_state::error::MutationError;
use slipstream_state::photo_read::{
    album_browse_target, list_albums, StoredAlbum, StoredAlbumMember,
};
use slipstream_state::photo_state::DecisionRow;
use slipstream_state::query::{
    create_photo_query, PhotoQuery, PhotoQueryCandidate, PhotoQueryOrder, PhotoQueryProjection,
    PhotoQuerySource, QueryFacts,
};
use slipstream_state::query_source::QueryPhoto;
use slipstream_state::removal::{
    next_removal_marker, remove_photos, validate_removal, validate_restoration,
    PhotoOperationRemainder, PhotoRemovalCounts, PhotoRemovalMarker, PhotoRemovalMutation,
    PhotoRemovalResult, PhotoRestoration, PhotoRestorationResult, RemovalFacts, RemovalRow,
};
use slipstream_state::removed_page::{removed_photos, RemovedPhotoRecord};
use slipstream_state::restore::{operation_remainders, restore_photos};
use slipstream_state::versions::MutationVersions;

/// The removal columns of a library, and the high water mark it records.
struct Bin {
    rows: Vec<RemovalRow>,
    high_water: Option<String>,
    now: i64,
}

fn text(value: &str) -> String {
    value.to_owned()
}

fn row(photo_id: &str, selection: &str) -> RemovalRow {
    RemovalRow {
        photo_id: text(photo_id),
        selection: text(selection),
        removed_at_ms: None,
        removed_operation: None,
    }
}

impl Bin {
    fn new(rows: Vec<RemovalRow>) -> Bin {
        Bin { rows, high_water: None, now: 1_000 }
    }

    fn remove(&mut self, ids: &[&str], operation: &str) -> Result<PhotoRemovalResult, MutationError> {
        let mutation = PhotoRemovalMutation {
            photo_ids: ids.iter().map(|id| text(id)).collect(),
            operation_id: text(operation),
        };
        validate_removal(&mutation)?;
        let facts = RemovalFacts {
            rows: self.rows.clone(),
            recorded_high_water: self.high_water.clone(),
            greatest_held: self.rows.iter().filter_map(|row| row.removed_at_ms).max(),
        };
        let change = remove_photos(&facts, &mutation, self.now)?;
        self.rows = change.rows;
        if let Some(mark) = change.high_water {
            self.high_water = Some(mark.to_string());
        }
        Ok(change.result)
    }

    fn restore(&mut self, restoration: PhotoRestoration) -> PhotoRestorationResult {
        validate_restoration(&restoration).unwrap();
        let change = restore_photos(&self.rows, &restoration);
        self.rows = change.rows;
        change.result
    }

    fn restore_marked(&mut self, photo_id: &str, marker: i64) -> PhotoRestorationResult {
        self.restore(PhotoRestoration::Photos(vec![PhotoRemovalMarker {
            photo_id: text(photo_id),
            removed_at_ms: marker,
        }]))
    }

    fn marker(&self, photo_id: &str) -> Option<i64> {
        let (records, _) = removed_photos(&self.rows, 0, 10);
        records.iter().find(|record| record.photo_id == photo_id).map(|record| record.removed_at_ms)
    }
}

#[test]
fn a_library_without_the_marker_high_water_never_repeats_a_marker_it_still_holds() {
    let held = 1_000 + 60_000;
    let mut bin = Bin::new(vec![row("photo-1", "rejected"), row("photo-2", "rejected")]);
    bin.rows[0].removed_at_ms = Some(held);
    bin.rows[0].removed_operation = Some(text("operation-held"));
    assert_eq!(bin.high_water, None);
    assert_eq!(bin.remove(&["photo-2"], "operation-next").unwrap().counts.removed, 1);
    assert!(bin.marker("photo-2").unwrap() > held);
    assert_eq!(bin.marker("photo-1"), Some(held));
}

#[test]
fn removal_markers_never_repeat_even_when_the_clock_does_not_advance() {
    let ahead = 1_000 + 60_000;
    let mut bin = Bin::new(vec![row("photo-1", "rejected")]);
    bin.high_water = Some(ahead.to_string());
    assert_eq!(bin.remove(&["photo-1"], "operation-one").unwrap().counts.removed, 1);
    let first = bin.marker("photo-1").unwrap();
    assert!(first > ahead);
    assert_eq!(bin.restore_marked("photo-1", first).counts.restored, 1);
    assert_eq!(bin.remove(&["photo-1"], "operation-two").unwrap().counts.removed, 1);
    let second = bin.marker("photo-1").unwrap();
    assert!(second > first);
    let superseded = bin.restore_marked("photo-1", first);
    assert_eq!(superseded.counts.restored, 0);
    assert_eq!(superseded.changed_elsewhere, vec![text("photo-1")]);
    assert_eq!(bin.marker("photo-1"), Some(second));
    assert_eq!(bin.restore_marked("photo-1", second).counts.restored, 1);
    assert_eq!(bin.marker("photo-1"), None);
}

#[test]
fn removal_outcomes_operation_identity_and_restore_are_exact() {
    let mut bin = Bin::new(vec![
        row("photo-1", "rejected"),
        row("photo-2", "undecided"),
        row("photo-3", "rejected"),
    ]);
    let result = bin.remove(&["photo-1", "photo-2", "photo-missing"], "operation-one").unwrap();
    assert_eq!(result.removed, vec![text("photo-1")]);
    assert_eq!(result.changed_elsewhere, vec![text("photo-2")]);
    assert_eq!(result.missing, vec![text("photo-missing")]);
    assert!(result.already_removed.is_empty());
    assert_eq!(
        result.counts,
        PhotoRemovalCounts { removed: 1, changed_elsewhere: 1, missing: 1, already_removed: 0 }
    );
    let retried = bin.remove(&["photo-1", "photo-3"], "operation-one").unwrap();
    assert_eq!(retried.counts.removed, 2);
    assert_eq!(retried.removed, vec![text("photo-1"), text("photo-3")]);
    assert!(retried.already_removed.is_empty());
    let other = bin.remove(&["photo-1"], "operation-two").unwrap();
    assert_eq!(other.counts.removed, 0);
    assert_eq!(other.counts.already_removed, 1);
    assert_eq!(other.already_removed, vec![text("photo-1")]);
    let (records, total) = removed_photos(&bin.rows, 0, 10);
    assert_eq!(total, 2);
    assert_eq!(records.len(), 2);
    assert!(records.iter().all(|record| record.removed_at_ms >= 0));

    let restored = bin.restore(PhotoRestoration::Operation(text("operation-one")));
    assert_eq!(restored.counts.restored, 2);
    assert_eq!(restored.counts.missing, 0);
    assert_eq!(restored.restored, vec![text("photo-1"), text("photo-3")]);
    let second = bin.restore(PhotoRestoration::Operation(text("operation-one")));
    assert_eq!(second.counts.restored, 0);
    assert_eq!(
        second.operations,
        vec![PhotoOperationRemainder { operation_id: text("operation-one"), removed: 0 }]
    );

    let named = bin.restore(PhotoRestoration::Photos(vec![
        PhotoRemovalMarker { photo_id: text("photo-1"), removed_at_ms: 0 },
        PhotoRemovalMarker { photo_id: text("photo-missing"), removed_at_ms: 0 },
    ]));
    assert_eq!(named.changed_elsewhere, vec![text("photo-1")]);
    assert_eq!(named.missing, vec![text("photo-missing")]);
    assert!(named.operations.is_empty());

    bin.rows[1].selection = text("rejected");
    assert_eq!(bin.remove(&["photo-2"], "operation-two").unwrap().counts.removed, 1);
    let stale_marker = bin.marker("photo-2").unwrap();
    let stale = bin.restore_marked("photo-2", stale_marker - 1);
    assert_eq!(stale.counts.restored, 0);
    assert_eq!(stale.changed_elsewhere, vec![text("photo-2")]);
    assert!(stale.operations.is_empty());
    let (records, total) = removed_photos(&bin.rows, 0, 10);
    assert_eq!(total, 1);
    assert_eq!(records[0].photo_id, "photo-2");

    let exact = bin.restore_marked("photo-2", stale_marker);
    assert_eq!(exact.restored, vec![text("photo-2")]);
    assert_eq!(
        exact.operations,
        vec![PhotoOperationRemainder { operation_id: text("operation-two"), removed: 0 }]
    );
    let (records, total) = removed_photos(&bin.rows, 0, 10);
    assert_eq!(total, 0);
    assert!(records.is_empty());

    assert_eq!(bin.remove(&["photo-2"], "operation-three").unwrap().counts.removed, 1);
    let second_marker = bin.marker("photo-2").unwrap();
    assert!(second_marker > stale_marker);
    let superseded = bin.restore_marked("photo-2", stale_marker);
    assert_eq!(superseded.counts.restored, 0);
    assert_eq!(superseded.changed_elsewhere, vec![text("photo-2")]);
    let (records, total) = removed_photos(&bin.rows, 0, 10);
    assert_eq!(total, 1);
    assert_eq!(records[0].removed_at_ms, second_marker);
    assert_eq!(bin.rows[0], row("photo-1", "rejected"));
}

#[test]
fn removed_photos_leave_normal_sources_and_album_counts() {
    let mut bin = Bin::new(vec![row("photo-1", "rejected"), row("photo-2", "rejected")]);
    bin.remove(&["photo-1"], "operation-one").unwrap();
    let gone = |id: &str| bin.rows.iter().any(|row| row.photo_id == id && row.removed_at_ms.is_some());
    let album = AlbumState {
        id: text("album"),
        name: text("Keepers"),
        created_at: 1,
        members: ["photo-1", "photo-2"]
            .iter()
            .enumerate()
            .map(|(at, id)| Member { photo_id: text(id), position: at as i64, removed: gone(id) })
            .collect(),
        saved_photo_id: None,
    };
    let versions = MutationVersions::new(text("epoch"));
    let summaries = list_album_summaries(&versions, &vec![album.clone()]);
    assert_eq!(summaries.len(), 1);
    assert_eq!(summaries[0].photo_count, 1);
    let target = album_browse_target(&Some(album.clone()), &vec![text("photo-2")]).unwrap();
    assert_eq!(
        target.members.iter().map(|member| member.photo_id.clone()).collect::<Vec<_>>(),
        vec![text("photo-2")]
    );
    let stored = StoredAlbum {
        id: text("album"),
        name: text("Keepers"),
        created_at: 0,
        last_reviewed_photo_id: None,
        members: album
            .members
            .iter()
            .map(|member| StoredAlbumMember {
                photo_id: member.photo_id.clone(),
                position: member.position,
                available: 1,
                selection_state: text("rejected"),
                rating: 0,
                removed: member.removed,
            })
            .collect(),
    };
    let albums = list_albums(&vec![stored]).unwrap();
    assert_eq!(albums[0].members.len(), 1);
    assert_eq!(album.members.len(), 2);

    let candidates: Vec<PhotoQueryCandidate> = ["photo-1", "photo-2"]
        .iter()
        .map(|id| PhotoQueryCandidate {
            photo_id: text(id),
            relative_path: format!("shoot/{id}.ARW"),
            sort_path: format!("shoot/{id}.ARW"),
            original_kind: OriginalKind::Raw,
            original_available: true,
            capture: CaptureFact {
                state: CaptureMetadataState::Pending,
                order_key: None,
                field: None,
                offset_minutes: None,
                source_revision: None,
            },
            preview_state: PreviewState::InspectionPending,
            preview_source_revision: None,
            preview_width: None,
            preview_height: None,
        })
        .collect();
    let projection = PhotoQueryProjection::new(candidates, vec![0, 1]).unwrap();
    let facts = QueryFacts {
        album_exists: true,
        photos: bin
            .rows
            .iter()
            .map(|row| QueryPhoto {
                decision: DecisionRow {
                    photo_id: row.photo_id.clone(),
                    selection: row.selection.clone(),
                    rating: 0,
                },
                removed: row.removed_at_ms.is_some(),
            })
            .collect(),
        members: ["photo-1", "photo-2"]
            .iter()
            .zip(0..)
            .map(|(id, position)| MemberEntry {
                album_id: text("album-1"),
                photo_id: text(id),
                position,
            })
            .collect(),
    };
    let query = PhotoQuery {
        source: PhotoQuerySource::AllPhotos,
        selection_state: None,
        rating_minimum: None,
        rating_maximum: None,
        original_kind: None,
        original_available: None,
        captured_from: None,
        captured_before: None,
        order: PhotoQueryOrder::CaptureTimeAscending,
    };
    assert_eq!(create_photo_query(&query, &projection, &facts, 100), Ok(vec![text("photo-2")]));
    for source in [
        PhotoQuerySource::Folder(text("shoot")),
        PhotoQuerySource::Album(text("album-1")),
    ] {
        let query = PhotoQuery { source, ..query.clone() };
        assert_eq!(create_photo_query(&query, &projection, &facts, 100), Ok(vec![text("photo-2")]));
    }
}

#[test]
fn a_retried_removal_repeats_its_whole_answer() {
    let mut bin = Bin::new(vec![
        row("a", "rejected"),
        row("b", "selected"),
        row("c", "rejected"),
        row("d", "rejected"),
    ]);
    bin.remove(&["d"], "earlier").unwrap();
    let first = bin.remove(&["a", "b", "missing", "d", "c"], "op").unwrap();
    let rows = bin.rows.clone();
    let mark = bin.high_water.clone();
    bin.now = 50_000;
    let again = bin.remove(&["a", "b", "missing", "d", "c"], "op").unwrap();
    assert_eq!(again, first);
    assert_eq!(bin.rows, rows);
    assert_eq!(bin.high_water, mark);
}

#[test]
fn undoing_an_operation_restores_every_row() {
    let mut bin = Bin::new(vec![
        row("b", "rejected"),
        row("a", "rejected"),
        row("kept", "selected"),
        row("other", "rejected"),
    ]);
    bin.remove(&["other"], "other-op").unwrap();
    let before = bin.rows.clone();
    bin.remove(&["b", "a", "kept"], "op").unwrap();
    assert_ne!(bin.rows, before);
    let undone = bin.restore(PhotoRestoration::Operation(text("op")));
    assert_eq!(bin.rows, before);
    assert_eq!(undone.restored, vec![text("a"), text("b")]);
}

#[test]
fn restored_photos_come_in_the_order_of_their_markers() {
    let mut bin = Bin::new(vec![row("a", "rejected"), row("z", "rejected")]);
    bin.remove(&["z"], "op").unwrap();
    bin.now = 9_000;
    bin.remove(&["a"], "op").unwrap();
    let undone = bin.restore(PhotoRestoration::Operation(text("op")));
    assert_eq!(undone.restored, vec![text("z"), text("a")]);
}

#[test]
fn removals_that_cannot_be_read_or_name_nothing_are_refused() {
    let mut bin = Bin::new(vec![row("a", "unheard")]);
    assert_eq!(bin.remove(&["a"], "op"), Err(MutationError::Persistence));
    assert_eq!(bin.remove(&[], "op"), Err(MutationError::Invalid));
    assert_eq!(bin.remove(&["a"], ""), Err(MutationError::Invalid));
    assert!(validate_restoration(&PhotoRestoration::Photos(vec![])).is_err());
}

#[test]
fn markers_pass_the_clock_and_every_mark() {
    assert_eq!(next_removal_marker(&None, None, 5), 5);
    assert_eq!(next_removal_marker(&None, None, -5), 1);
    assert_eq!(next_removal_marker(&Some(text("7")), Some(90), 5), 8);
    assert_eq!(next_removal_marker(&Some(text("seven")), Some(9), 5), 10);
    assert_eq!(next_removal_marker(&Some(i64::MAX.to_string()), None, 5), i64::MAX);
}

#[test]
fn the_newest_removal_comes_first_and_pages_are_cut() {
    let mut rows = vec![row("a", "rejected"), row("b", "rejected"), row("c", "rejected")];
    rows[0].removed_at_ms = Some(1);
    rows[1].removed_at_ms = Some(2);
    rows[2].removed_at_ms = Some(2);
    let record = |id: &str, marker: i64| RemovedPhotoRecord {
        photo_id: text(id),
        removed_at_ms: marker,
    };
    assert_eq!(
        removed_photos(&rows, 0, 10),
        (vec![record("b", 2), record("c", 2), record("a", 1)], 3)
    );
    assert_eq!(removed_photos(&rows, 1, 1), (vec![record("c", 2)], 3));
    assert_eq!(removed_photos(&rows, 9, 1), (vec![], 3));
    rows[0].removed_operation = Some(text("op"));
    assert_eq!(
        operation_remainders(&rows, &vec![text("none"), text("op")]),
        vec![
            PhotoOperationRemainder { operation_id: text("none"), removed: 0 },
            PhotoOperationRemainder { operation_id: text("op"), removed: 1 },
        ]
    );
}
