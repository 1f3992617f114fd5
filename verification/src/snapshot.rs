//! What the database holds of the Library, read from its columns and put in the
//! order that it is shown in.
use crate::binary::Real;
use crate::codec::{
    capture_fact_valid, capture_of, category_of, kind_of, law_capture_facts_are_whole,
    law_kinds_are_stored_by_name, law_selections_are_stored_by_name, law_states_are_stored_by_name,
    parse_capture_fact, parse_dimension, parse_error_category, parse_kind, parse_preview_state,
    parse_selection_state, preview_of, selection_of, time_field_of, CaptureFact,
    CaptureMetadataState, OriginalErrorCategory, OriginalKind, PreviewState, SelectionState,
};
use crate::error::PersistenceError;
use crate::order::{law_order_is_irreflexive, text_less};
use crate::scan::{apply_scan, scan_applied, ReconciledPhoto, TablesView};
use crate::scan_state::{
    clone_original, clone_photo, index_of_original, original_ids, originals_view, photos_view,
    DiscoveredOriginal, OriginalRecord, OriginalView, PhotoRecord, PhotoView, ScanRecoveryPlan,
    ScanTables,
};
use crate::sorting::{
    key_less, keys_view, law_sorting_orders_every_row, rows_view, sort_order, sorted_rows,
    texts_less, KeyView, SortKey,
};
use crate::text::{clone_opt_text, is_text, last_index, opt_text, texts};
use vstd::prelude::*;
use vstd::string::*;

verus! {

/// The columns of an Original File. `location` is none where the stored text is
/// no Location.
#[derive(Clone, Debug, PartialEq, Eq)]
pub struct StoredOriginal {
    pub id: String,
    pub location: Option<String>,
    pub kind: String,
    pub size: i64,
    pub mtime_ms: Real,
    pub available: i64,
    pub error_category: Option<String>,
    pub error_message: Option<String>,
    pub capture_state: String,
    pub capture_order_key: Option<String>,
    pub capture_field: Option<String>,
    pub capture_offset_minutes: Option<i64>,
    pub capture_source_revision: Option<String>,
}

/// The capture fact that the columns of an Original File tell.
pub open spec fn stored_capture(row: StoredOriginal) -> CaptureFact {
    CaptureFact {
        state: capture_of(row.capture_state@)->0,
        order_key: row.capture_order_key,
        field: match row.capture_field {
            Some(name) => time_field_of(name@),
            None => None,
        },
        offset_minutes: match row.capture_offset_minutes {
            Some(n) => Some(n as i32),
            None => None,
        },
        source_revision: row.capture_source_revision,
    }
}

/// Whether the columns of an Original File can be read.
pub open spec fn original_readable(row: StoredOriginal) -> bool {
    &&& row.location is Some
    &&& kind_of(row.kind@) is Some
    &&& row.size >= 0
    &&& row.error_category is Some ==> category_of(row.error_category->0@) is Some
    &&& capture_of(row.capture_state@) is Some
    &&& row.capture_field is Some ==> time_field_of(row.capture_field->0@) is Some
    &&& row.capture_offset_minutes is Some ==> i32::MIN <= row.capture_offset_minutes->0
        <= i32::MAX
    &&& capture_fact_valid(stored_capture(row))
}

/// An Original File as stored, if its columns can be read.
pub open spec fn original_read(row: StoredOriginal) -> Option<OriginalRecord> {
    if original_readable(row) {
        Some(
            OriginalRecord {
                id: row.id,
                relative_path: row.location->0,
                kind: kind_of(row.kind@)->0,
                size: row.size as u64,
                mtime_ms: row.mtime_ms,
                available: row.available != 0,
                error_category: match row.error_category {
                    Some(name) => category_of(name@),
                    None => None,
                },
                error_message: row.error_message,
                capture: stored_capture(row),
            },
        )
    } else {
        None
    }
}

/// Reads an Original File from its columns, none if one of them cannot be read.
pub fn read_original(row: &StoredOriginal) -> (record: Option<OriginalRecord>)
    ensures
        record == original_read(*row),
{
    let relative_path: String = match &row.location {
        Some(location) => location.clone(),
        None => {
            return None;
        },
    };
    let kind = match parse_kind(&row.kind) {
        Some(kind) => kind,
        None => {
            return None;
        },
    };
    if row.size < 0 {
        return None;
    }
    let error_category = match parse_error_category(&row.error_category) {
        Some(category) => category,
        None => {
            return None;
        },
    };
    let capture: CaptureFact = match parse_capture_fact(
        &row.capture_state,
        clone_opt_text(&row.capture_order_key),
        &row.capture_field,
        row.capture_offset_minutes,
        clone_opt_text(&row.capture_source_revision),
    ) {
        Some(capture) => capture,
        None => {
            return None;
        },
    };
    Some(
        OriginalRecord {
            id: row.id.clone(),
            relative_path,
            kind,
            size: row.size as u64,
            mtime_ms: row.mtime_ms,
            available: row.available != 0,
            error_category,
            error_message: clone_opt_text(&row.error_message),
            capture,
        },
    )
}

/// The columns of a Photo.
#[derive(Clone, Debug, PartialEq, Eq)]
pub struct StoredPhoto {
    pub id: String,
    pub original_id: String,
    pub available: i64,
    pub preview_state: String,
    pub preview_source_revision: Option<String>,
    pub preview_width: Option<i64>,
    pub preview_height: Option<i64>,
    pub cache_revision: Option<String>,
    pub sort_path: String,
    pub selection_state: String,
    pub rating: i64,
    pub saved_edits: i64,
    pub removed_at_ms: Option<i64>,
}

/// Whether a stored dimension can be read.
pub open spec fn dimension_readable(value: Option<i64>) -> bool {
    value is Some ==> 0 <= value->0 <= u32::MAX
}

/// The dimension that a stored number tells.
pub open spec fn dimension_of(value: Option<i64>) -> Option<u32> {
    match value {
        Some(n) => Some(n as u32),
        None => None,
    }
}

/// Whether the columns of a Photo can be read.
pub open spec fn photo_readable(row: StoredPhoto) -> bool {
    &&& preview_of(row.preview_state@) is Some
    &&& dimension_readable(row.preview_width)
    &&& dimension_readable(row.preview_height)
    &&& selection_of(row.selection_state@) is Some
    &&& 0 <= row.rating <= u8::MAX
}

/// A Photo as stored, if its columns can be read.
pub open spec fn photo_read(row: StoredPhoto) -> Option<PhotoRecord> {
    if photo_readable(row) {
        Some(
            PhotoRecord {
                id: row.id,
                original_id: row.original_id,
                available: row.available != 0,
                preview_state: preview_of(row.preview_state@)->0,
                preview_source_revision: row.preview_source_revision,
                preview_width: dimension_of(row.preview_width),
                preview_height: dimension_of(row.preview_height),
                cache_revision: row.cache_revision,
                sort_path: row.sort_path,
                selection_state: selection_of(row.selection_state@)->0,
                rating: row.rating as u8,
                has_saved_edits: row.saved_edits != 0,
                removed: row.removed_at_ms is Some,
            },
        )
    } else {
        None
    }
}

/// Reads a Photo from its columns, none if one of them cannot be read.
pub fn read_photo(row: &StoredPhoto) -> (record: Option<PhotoRecord>)
    ensures
        record == photo_read(*row),
{
    let preview_state = match parse_preview_state(&row.preview_state) {
        Some(state) => state,
        None => {
            return None;
        },
    };
    let preview_width = match parse_dimension(row.preview_width) {
        Some(width) => width,
        None => {
            return None;
        },
    };
    let preview_height = match parse_dimension(row.preview_height) {
        Some(height) => height,
        None => {
            return None;
        },
    };
    let selection_state = match parse_selection_state(&row.selection_state) {
        Some(state) => state,
        None => {
            return None;
        },
    };
    if row.rating < 0 || row.rating > u8::MAX as i64 {
        return None;
    }
    Some(
        PhotoRecord {
            id: row.id.clone(),
            original_id: row.original_id.clone(),
            available: row.available != 0,
            preview_state,
            preview_source_revision: clone_opt_text(&row.preview_source_revision),
            preview_width,
            preview_height,
            cache_revision: clone_opt_text(&row.cache_revision),
            sort_path: row.sort_path.clone(),
            selection_state,
            rating: row.rating as u8,
            has_saved_edits: row.saved_edits != 0,
            removed: row.removed_at_ms.is_some(),
        },
    )
}

/// Whether the Library was published: the value that is stored for it is "1".
pub fn read_published(value: &Option<String>) -> (published: bool)
    ensures
        published == (opt_text(*value) == Some("1"@)),
{
    match value {
        Some(text) => is_text(text, "1"),
        None => false,
    }
}

/// The key that Original Files are ordered by.
pub open spec fn original_key(row: OriginalView) -> KeyView {
    KeyView { rank: 0, texts: seq![row.relative_path] }
}

/// The keys of a list of Original Files.
pub open spec fn original_keys(rows: Seq<OriginalView>) -> Seq<KeyView> {
    Seq::new(rows.len(), |i: int| original_key(rows[i]))
}

/// When the Original File of a Photo was captured, by its order key.
pub open spec fn captured(photo: PhotoView, originals: Seq<OriginalView>) -> Option<Seq<char>> {
    match last_index(original_ids(originals), photo.original_id) {
        Some(k) => originals[k].capture.order_key,
        None => None,
    }
}

/// The key that Photos are ordered by: known capture times first, then the sort
/// path and the identity.
pub open spec fn photo_key(photo: PhotoView, originals: Seq<OriginalView>) -> KeyView {
    match captured(photo, originals) {
        Some(key) => KeyView { rank: 0, texts: seq![key, photo.sort_path, photo.id] },
        None => KeyView { rank: 1, texts: seq![photo.sort_path, photo.id] },
    }
}

/// The keys of a list of Photos.
pub open spec fn photo_keys(photos: Seq<PhotoView>, originals: Seq<OriginalView>) -> Seq<
    KeyView,
> {
    Seq::new(photos.len(), |i: int| photo_key(photos[i], originals))
}

/// The Original Files in order.
pub open spec fn ordered_originals(rows: Seq<OriginalView>) -> Seq<OriginalView> {
    Seq::new(rows.len(), |i: int| rows[sort_order(original_keys(rows), rows.len())[i]])
}

/// The Photos in order.
pub open spec fn ordered_photos(photos: Seq<PhotoView>, originals: Seq<OriginalView>) -> Seq<
    PhotoView,
> {
    Seq::new(
        photos.len(),
        |i: int| photos[sort_order(photo_keys(photos, originals), photos.len())[i]],
    )
}

/// What went wrong with one file of a scan.
#[derive(Clone, Debug, PartialEq, Eq)]
pub struct OriginalScanError {
    pub path: String,
    pub category: OriginalErrorCategory,
    pub message: String,
}

/// The Original Files and Photos of the Library, in order, and what went wrong with
/// the scan that they come from.
#[derive(Clone, Debug, PartialEq, Eq)]
pub struct ScanSnapshot {
    pub published: bool,
    pub originals: Vec<OriginalRecord>,
    pub photos: Vec<PhotoRecord>,
    pub errors: Vec<OriginalScanError>,
}

/// Whether a snapshot tells tables, in order.
pub open spec fn tells_tables(snapshot: ScanSnapshot, tables: TablesView) -> bool {
    &&& snapshot.published == tables.published
    &&& originals_view(snapshot.originals@) == ordered_originals(tables.originals)
    &&& photos_view(snapshot.photos@) == ordered_photos(tables.photos, tables.originals)
}

fn sort_originals(rows: &Vec<OriginalRecord>) -> (sorted: Vec<OriginalRecord>)
    ensures
        originals_view(sorted@) == ordered_originals(originals_view(rows@)),
{
    let ghost views = originals_view(rows@);
    let ghost all = original_keys(views);
    let mut keys: Vec<SortKey> = Vec::new();
    let mut i: usize = 0;
    while i < rows.len()
        invariant
            i <= rows.len(),
            views == originals_view(rows@),
            all == original_keys(views),
            keys_view(keys@) == all.take(i as int),
        decreases rows.len() - i,
    {
        let key: SortKey = SortKey { rank: 0, texts: vec![rows[i].relative_path.clone()] };
        proof {
            assert(key@.texts =~= original_key(views[i as int]).texts);
            assert(keys_view(keys@.push(key)) =~= keys_view(keys@).push(key@));
            assert(all.take(i + 1) =~= all.take(i as int).push(all[i as int]));
        }
        keys.push(key);
        i = i + 1;
    }
    assert(all.take(all.len() as int) =~= all);
    assert(keys.len() == keys_view(keys@).len());
    let order: Vec<usize> = sorted_rows(&keys);
    let ghost goal = ordered_originals(views);
    let mut sorted: Vec<OriginalRecord> = Vec::new();
    let mut j: usize = 0;
    while j < order.len()
        invariant
            j <= order.len(),
            order.len() == rows.len(),
            views == originals_view(rows@),
            goal == ordered_originals(views),
            rows_view(order@) == sort_order(original_keys(views), views.len()),
            forall|k: int| 0 <= k < order.len() ==> (#[trigger] order@[k]) < rows.len(),
            originals_view(sorted@) == goal.take(j as int),
        decreases order.len() - j,
    {
        let row: OriginalRecord = clone_original(&rows[order[j]]);
        proof {
            assert(rows_view(order@)[j as int] == order@[j as int]);
            assert(row@ == goal[j as int]);
            assert(originals_view(sorted@.push(row)) =~= originals_view(sorted@).push(row@));
            assert(goal.take(j + 1) =~= goal.take(j as int).push(goal[j as int]));
        }
        sorted.push(row);
        j = j + 1;
    }
    assert(goal.take(goal.len() as int) =~= goal);
    sorted
}

fn key_of_photo(photo: &PhotoRecord, originals: &Vec<OriginalRecord>) -> (key: SortKey)
    ensures
        key@ == photo_key(photo@, originals_view(originals@)),
{
    let captured: Option<String> = match index_of_original(originals, &photo.original_id) {
        Some(k) => {
            assert(originals_view(originals@)[k as int] == originals@[k as int]@);
            clone_opt_text(&originals[k].capture.order_key)
        },
        None => None,
    };
    let key: SortKey = match captured {
        Some(text) => SortKey {
            rank: 0,
            texts: vec![text, photo.sort_path.clone(), photo.id.clone()],
        },
        None => SortKey { rank: 1, texts: vec![photo.sort_path.clone(), photo.id.clone()] },
    };
    assert(key@.texts =~= photo_key(photo@, originals_view(originals@)).texts);
    key
}

fn sort_photos(rows: &Vec<PhotoRecord>, originals: &Vec<OriginalRecord>) -> (sorted: Vec<
    PhotoRecord,
>)
    ensures
        photos_view(sorted@) == ordered_photos(photos_view(rows@), originals_view(originals@)),
{
    let ghost views = photos_view(rows@);
    let ghost files = originals_view(originals@);
    let ghost all = photo_keys(views, files);
    let mut keys: Vec<SortKey> = Vec::new();
    let mut i: usize = 0;
    while i < rows.len()
        invariant
            i <= rows.len(),
            views == photos_view(rows@),
            files == originals_view(originals@),
            all == photo_keys(views, files),
            keys_view(keys@) == all.take(i as int),
        decreases rows.len() - i,
    {
        let key: SortKey = key_of_photo(&rows[i], originals);
        proof {
            assert(keys_view(keys@.push(key)) =~= keys_view(keys@).push(key@));
            assert(all.take(i + 1) =~= all.take(i as int).push(all[i as int]));
        }
        keys.push(key);
        i = i + 1;
    }
    assert(all.take(all.len() as int) =~= all);
    assert(keys.len() == keys_view(keys@).len());
    let order: Vec<usize> = sorted_rows(&keys);
    let ghost goal = ordered_photos(views, files);
    let mut sorted: Vec<PhotoRecord> = Vec::new();
    let mut j: usize = 0;
    while j < order.len()
        invariant
            j <= order.len(),
            order.len() == rows.len(),
            views == photos_view(rows@),
            goal == ordered_photos(views, files),
            rows_view(order@) == sort_order(photo_keys(views, files), views.len()),
            forall|k: int| 0 <= k < order.len() ==> (#[trigger] order@[k]) < rows.len(),
            photos_view(sorted@) == goal.take(j as int),
        decreases order.len() - j,
    {
        let row: PhotoRecord = clone_photo(&rows[order[j]]);
        proof {
            assert(rows_view(order@)[j as int] == order@[j as int]);
            assert(row@ == goal[j as int]);
            assert(photos_view(sorted@.push(row)) =~= photos_view(sorted@).push(row@));
            assert(goal.take(j + 1) =~= goal.take(j as int).push(goal[j as int]));
        }
        sorted.push(row);
        j = j + 1;
    }
    assert(goal.take(goal.len() as int) =~= goal);
    sorted
}

/// The Library in order: Original Files by Location, Photos by capture time,
/// sort path and identity. Nothing is known of errors.
pub fn snapshot(tables: &ScanTables) -> (snapshot: ScanSnapshot)
    ensures
        tells_tables(snapshot, tables@),
        snapshot.errors@ == Seq::<OriginalScanError>::empty(),
{
    ScanSnapshot {
        published: tables.published,
        originals: sort_originals(&tables.originals),
        photos: sort_photos(&tables.photos, &tables.originals),
        errors: Vec::new(),
    }
}

/// The committed result of a scan.
#[derive(Clone, Debug, PartialEq, Eq)]
pub struct ScanApplication {
    pub snapshot: ScanSnapshot,
    pub relocated_originals: usize,
    pub fingerprinted_originals: usize,
}

/// Whether an answer to a scan tells tables, what went wrong with the scan, and how
/// many relocations and digests its plan held.
pub open spec fn tells_scan(
    application: ScanApplication,
    tables: TablesView,
    errors: Seq<OriginalScanError>,
    recovery: ScanRecoveryPlan,
) -> bool {
    &&& tells_tables(application.snapshot, tables)
    &&& application.snapshot.errors@ == errors
    &&& application.relocated_originals == recovery.relocations.len()
    &&& application.fingerprinted_originals == recovery.fingerprints.len()
}

/// The answer to a scan that was committed: the Library in order, what went wrong,
/// and how many relocations and digests the plan held.
pub fn scan_application(
    tables: &ScanTables,
    errors: Vec<OriginalScanError>,
    recovery: &ScanRecoveryPlan,
) -> (application: ScanApplication)
    ensures
        tells_scan(application, tables@, errors@, *recovery),
{
    let mut told: ScanSnapshot = snapshot(tables);
    told.errors = errors;
    ScanApplication {
        snapshot: told,
        relocated_originals: recovery.relocations.len(),
        fingerprinted_originals: recovery.fingerprints.len(),
    }
}

/// A scan that is to be stored, and what it is answered once it is.
#[derive(Clone, Debug, PartialEq, Eq)]
pub struct AppliedScan {
    pub tables: ScanTables,
    pub application: ScanApplication,
}

/// Applies a scan: the tables after it, and the answer that tells them together with
/// what went wrong. A scan that is refused changes nothing.
pub fn apply_scan_recovered(
    tables: &ScanTables,
    discovered: &Vec<DiscoveredOriginal>,
    errors: Vec<OriginalScanError>,
    ids: &Vec<String>,
    reconciled: &Vec<ReconciledPhoto>,
    recovery: &ScanRecoveryPlan,
) -> (result: Result<AppliedScan, PersistenceError>)
    requires
        ids.len() == discovered.len(),
    ensures
        match scan_applied(
            tables@,
            discovered@,
            texts(ids@),
            reconciled@,
            recovery.relocations@,
            recovery.fingerprints@,
        ) {
            Ok(after) => result is Ok && result->Ok_0.tables@ == after && tells_scan(
                result->Ok_0.application,
                after,
                errors@,
                *recovery,
            ),
            Err(error) => result == Err::<AppliedScan, PersistenceError>(error),
        },
{
    match apply_scan(tables, discovered, ids, reconciled, recovery) {
        Ok(after) => {
            let application: ScanApplication = scan_application(&after, errors, recovery);
            Ok(AppliedScan { tables: after, application })
        },
        Err(error) => Err(error),
    }
}

/// Every Photo with a known capture time stands before those without, whatever
/// their sort paths.
pub proof fn law_known_capture_times_come_first(
    tables: TablesView,
    i: int,
    j: int,
)
    requires
        0 <= i < j < tables.photos.len(),
        captured(
            ordered_photos(tables.photos, tables.originals)[j],
            tables.originals,
        ) is Some,
    ensures
        captured(
            ordered_photos(tables.photos, tables.originals)[i],
            tables.originals,
        ) is Some,
{
    let keys = photo_keys(tables.photos, tables.originals);
    let order = sort_order(keys, tables.photos.len());
    law_sorting_orders_every_row(keys, tables.photos.len());
    let a = tables.photos[order[i]];
    let b = tables.photos[order[j]];
    assert(keys[order[i]] == photo_key(a, tables.originals));
    assert(keys[order[j]] == photo_key(b, tables.originals));
    assert(!key_less(keys[order[j]], keys[order[i]]));
}

/// An Original File is read as it is stored, field by field: its Location, kind, size and
/// time, whether it is available, what is wrong with it, and its capture facts.
pub proof fn law_originals_are_read_as_stored(row: StoredOriginal)
    ensures
        original_read(row) is Some ==> {
            let record = original_read(row)->0;
            &&& record.id@ == row.id@
            &&& row.location is Some
            &&& record.relative_path@ == row.location->0@
            &&& record.kind == OriginalKind::Raw <==> row.kind@ == "raw"@
            &&& record.kind == OriginalKind::Jpeg <==> row.kind@ == "jpeg"@
            &&& record.size == row.size
            &&& record.mtime_ms == row.mtime_ms
            &&& record.available <==> row.available != 0
            &&& record.error_category is Some <==> row.error_category is Some
            &&& record.error_category == Some(OriginalErrorCategory::Unreadable)
                <==> row.error_category is Some && row.error_category->0@ == "unreadable"@
            &&& record.error_category == Some(OriginalErrorCategory::Changed)
                <==> row.error_category is Some && row.error_category->0@ == "changed"@
            &&& opt_text(record.error_message) == opt_text(row.error_message)
            &&& record.capture.state == CaptureMetadataState::Known <==> row.capture_state@
                == "known"@
            &&& record.capture.state == CaptureMetadataState::Pending <==> row.capture_state@
                == "pending"@
            &&& opt_text(record.capture.order_key) == opt_text(row.capture_order_key)
            &&& record.capture.field is Some <==> row.capture_field is Some
            &&& record.capture.offset_minutes is Some <==> row.capture_offset_minutes is Some
            &&& record.capture.offset_minutes is Some ==> record.capture.offset_minutes->0
                == row.capture_offset_minutes->0
            &&& opt_text(record.capture.source_revision) == opt_text(row.capture_source_revision)
        },
        row.location is None || row.size < 0 || (row.kind@ != "raw"@ && row.kind@ != "jpeg"@) || (
        row.capture_state@ == "known"@ && row.capture_order_key is None) || (row.capture_state@
            == "pending"@ && row.capture_source_revision is Some) || (row.capture_order_key is Some
            && row.capture_field is None) ==> original_read(row) is None,
{
    law_kinds_are_stored_by_name(row.kind@);
    if row.error_category is Some {
        law_kinds_are_stored_by_name(row.error_category->0@);
    }
    law_states_are_stored_by_name(row.capture_state@);
    law_capture_facts_are_whole(stored_capture(row));
}

/// A Photo is read as it is stored, field by field.
pub proof fn law_photos_are_read_as_stored(row: StoredPhoto)
    ensures
        photo_read(row) is Some ==> {
            let record = photo_read(row)->0;
            &&& record.id@ == row.id@
            &&& record.original_id@ == row.original_id@
            &&& record.available <==> row.available != 0
            &&& record.preview_state == PreviewState::InspectionPending <==> row.preview_state@
                == "inspection-pending"@
            &&& record.preview_state == PreviewState::Ready <==> row.preview_state@ == "ready"@
            &&& record.preview_state == PreviewState::Failed <==> row.preview_state@ == "failed"@
            &&& record.preview_state == PreviewState::Unavailable <==> row.preview_state@
                == "unavailable"@
            &&& opt_text(record.preview_source_revision) == opt_text(row.preview_source_revision)
            &&& record.preview_width is Some <==> row.preview_width is Some
            &&& record.preview_width is Some ==> record.preview_width->0 == row.preview_width->0
            &&& record.preview_height is Some <==> row.preview_height is Some
            &&& record.preview_height is Some ==> record.preview_height->0 == row.preview_height->0
            &&& opt_text(record.cache_revision) == opt_text(row.cache_revision)
            &&& record.sort_path@ == row.sort_path@
            &&& record.selection_state == SelectionState::Undecided <==> row.selection_state@
                == "undecided"@
            &&& record.selection_state == SelectionState::Selected <==> row.selection_state@
                == "selected"@
            &&& record.selection_state == SelectionState::Rejected <==> row.selection_state@
                == "rejected"@
            &&& record.rating == row.rating
            &&& record.has_saved_edits <==> row.saved_edits != 0
            &&& record.removed <==> row.removed_at_ms is Some
        },
        row.rating < 0 || row.rating > 255 || (row.selection_state@ != "undecided"@
            && row.selection_state@ != "selected"@ && row.selection_state@ != "rejected"@)
            ==> photo_read(row) is None,
        row.preview_width is Some && (row.preview_width->0 < 0 || row.preview_width->0
            > 4_294_967_295) ==> photo_read(row) is None,
        row.preview_height is Some && (row.preview_height->0 < 0 || row.preview_height->0
            > 4_294_967_295) ==> photo_read(row) is None,
{
    law_states_are_stored_by_name(row.preview_state@);
    law_selections_are_stored_by_name(row.selection_state@);
}

/// A snapshot tells every stored Original File and no other, by its Location.
pub proof fn law_snapshots_tell_originals_by_path(rows: Seq<OriginalView>, row: OriginalView)
    ensures
        ordered_originals(rows).len() == rows.len(),
        ordered_originals(rows).contains(row) <==> rows.contains(row),
        forall|i: int, j: int|
            0 <= i < j < rows.len() ==> !text_less(
                (#[trigger] ordered_originals(rows)[j]).relative_path,
                (#[trigger] ordered_originals(rows)[i]).relative_path,
            ),
{
    let keys = original_keys(rows);
    let order = sort_order(keys, rows.len());
    law_sorting_orders_every_row(keys, rows.len());
    let sorted = ordered_originals(rows);
    if sorted.contains(row) {
        let i = choose|i: int| 0 <= i < sorted.len() && sorted[i] == row;
        assert(rows[order[i]] == row);
    }
    if rows.contains(row) {
        let i = choose|i: int| 0 <= i < rows.len() && rows[i] == row;
        assert(order.contains(i));
        let k = choose|k: int| 0 <= k < order.len() && order[k] == i;
        assert(sorted[k] == row);
    }
    assert forall|i: int, j: int| 0 <= i < j < rows.len() implies !text_less(
        (#[trigger] sorted[j]).relative_path,
        (#[trigger] sorted[i]).relative_path,
    ) by {
        let a = keys[order[i]];
        let b = keys[order[j]];
        assert(!key_less(b, a));
        if text_less(sorted[j].relative_path, sorted[i].relative_path) {
            law_order_is_irreflexive(sorted[i].relative_path);
            assert(b.texts[0] == sorted[j].relative_path);
            assert(a.texts[0] == sorted[i].relative_path);
            assert(texts_less(b.texts, a.texts));
        }
    }
}

/// A snapshot tells every stored Photo and no other. Of two Photos with known capture
/// times the later one does not come first; of two that were taken at the same time, or
/// at no known time, the one whose path comes first does; and of two with one path the
/// one whose identity comes first.
pub proof fn law_snapshots_tell_photos_by_capture(
    photos: Seq<PhotoView>,
    originals: Seq<OriginalView>,
    photo: PhotoView,
    i: int,
    j: int,
)
    requires
        0 <= i < j < photos.len(),
    ensures
        ordered_photos(photos, originals).len() == photos.len(),
        ordered_photos(photos, originals).contains(photo) <==> photos.contains(photo),
        ({
            let left = ordered_photos(photos, originals)[i];
            let right = ordered_photos(photos, originals)[j];
            let first = captured(left, originals);
            let second = captured(right, originals);
            &&& first is Some && second is Some ==> !text_less(second->0, first->0)
            &&& first == second ==> !text_less(right.sort_path, left.sort_path)
            &&& first == second && left.sort_path == right.sort_path ==> !text_less(
                right.id,
                left.id,
            )
        }),
{
    let keys = photo_keys(photos, originals);
    let order = sort_order(keys, photos.len());
    law_sorting_orders_every_row(keys, photos.len());
    let sorted = ordered_photos(photos, originals);
    if sorted.contains(photo) {
        let k = choose|k: int| 0 <= k < sorted.len() && sorted[k] == photo;
        assert(photos[order[k]] == photo);
    }
    if photos.contains(photo) {
        let k = choose|k: int| 0 <= k < photos.len() && photos[k] == photo;
        assert(order.contains(k));
        let m = choose|m: int| 0 <= m < order.len() && order[m] == k;
        assert(sorted[m] == photo);
    }
    let left = sorted[i];
    let right = sorted[j];
    let a = photo_key(left, originals);
    let b = photo_key(right, originals);
    assert(keys[order[i]] == a);
    assert(keys[order[j]] == b);
    assert(!key_less(b, a));
    lemma_texts_decided(b.texts, a.texts);
    let first = captured(left, originals);
    let second = captured(right, originals);
    if first is Some && second is Some && text_less(second->0, first->0) {
        law_order_is_irreflexive(first->0);
    }
    if first == second {
        assert(a.rank == b.rank && a.texts.len() == b.texts.len());
        if text_less(right.sort_path, left.sort_path) {
            law_order_is_irreflexive(left.sort_path);
        }
        if text_less(right.id, left.id) {
            law_order_is_irreflexive(left.id);
        }
        if first is Some {
            lemma_texts_decided(b.texts.drop_first(), a.texts.drop_first());
            lemma_texts_decided(
                b.texts.drop_first().drop_first(),
                a.texts.drop_first().drop_first(),
            );
        } else {
            lemma_texts_decided(b.texts.drop_first(), a.texts.drop_first());
        }
    }
}

proof fn lemma_texts_decided(left: Seq<Seq<char>>, right: Seq<Seq<char>>)
    ensures
        left.len() > 0 && right.len() > 0 && left[0] != right[0] ==> texts_less(left, right)
            == text_less(left[0], right[0]),
        left.len() > 0 && right.len() > 0 && left[0] == right[0] ==> texts_less(left, right)
            == texts_less(left.drop_first(), right.drop_first()),
{
}

/// A library is published where its mark is `1`, and nowhere else.
pub proof fn law_published_libraries_are_marked(value: Option<String>, published: bool)
    requires
        call_ensures(read_published, (&value,), published),
    ensures
        published <==> value is Some && value->0@ == "1"@,
{
}

/// An applied scan tells what the tables hold, the errors as they were met, and how many
/// files were found again or fingerprinted.
pub proof fn law_applied_scans_tell_what_was_done(
    tables: ScanTables,
    errors: Vec<OriginalScanError>,
    recovery: ScanRecoveryPlan,
    application: ScanApplication,
    row: OriginalView,
    photo: PhotoView,
)
    requires
        call_ensures(scan_application, (&tables, errors, &recovery), application),
    ensures
        application.snapshot.published == tables.published,
        application.snapshot.errors@ == errors@,
        application.relocated_originals == recovery.relocations.len(),
        application.fingerprinted_originals == recovery.fingerprints.len(),
        application.snapshot.originals.len() == tables.originals.len(),
        application.snapshot.photos.len() == tables.photos.len(),
        originals_view(application.snapshot.originals@).contains(row) <==> originals_view(
            tables.originals@,
        ).contains(row),
        photos_view(application.snapshot.photos@).contains(photo) ==> photos_view(
            tables.photos@,
        ).contains(photo),
{
    law_snapshots_tell_originals_by_path(tables@.originals, row);
    assert(originals_view(application.snapshot.originals@).len()
        == application.snapshot.originals.len());
    assert(photos_view(application.snapshot.photos@).len() == application.snapshot.photos.len());
    let keys = photo_keys(tables@.photos, tables@.originals);
    let order = sort_order(keys, tables@.photos.len());
    law_sorting_orders_every_row(keys, tables@.photos.len());
    let sorted = ordered_photos(tables@.photos, tables@.originals);
    if sorted.contains(photo) {
        let k = choose|k: int| 0 <= k < sorted.len() && sorted[k] == photo;
        assert(tables@.photos[order[k]] == photo);
    }
}

} // verus!
