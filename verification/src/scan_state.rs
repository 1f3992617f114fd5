//! The stored rows of Original Files, Photos and fingerprints, and what a scan
//! brings to them.
use crate::binary::Real;
use crate::codec::{
    CaptureFact, CaptureMetadataState, CaptureTimeField, OriginalErrorCategory, OriginalKind,
    PreviewState, SelectionState,
};
use crate::text::{clone_opt_text, last_index, lemma_last_index, lemma_last_index_found, opt_text,
    same_text};
use vstd::prelude::*;
use vstd::string::*;

verus! {

/// What a [`CaptureFact`] stands for.
pub struct CaptureView {
    pub state: CaptureMetadataState,
    pub order_key: Option<Seq<char>>,
    pub field: Option<CaptureTimeField>,
    pub offset_minutes: Option<i32>,
    pub source_revision: Option<Seq<char>>,
}

impl View for CaptureFact {
    type V = CaptureView;

    open spec fn view(&self) -> CaptureView {
        CaptureView {
            state: self.state,
            order_key: opt_text(self.order_key),
            field: self.field,
            offset_minutes: self.offset_minutes,
            source_revision: opt_text(self.source_revision),
        }
    }
}

/// A capture fact of which nothing is known yet.
pub open spec fn pending_capture() -> CaptureView {
    CaptureView {
        state: CaptureMetadataState::Pending,
        order_key: None,
        field: None,
        offset_minutes: None,
        source_revision: None,
    }
}

/// A capture fact of which nothing is known yet.
pub fn new_pending_capture() -> (fact: CaptureFact)
    ensures
        fact@ == pending_capture(),
{
    CaptureFact {
        state: CaptureMetadataState::Pending,
        order_key: None,
        field: None,
        offset_minutes: None,
        source_revision: None,
    }
}

/// A copy of a capture fact.
pub fn clone_capture(fact: &CaptureFact) -> (copy: CaptureFact)
    ensures
        copy == *fact,
{
    CaptureFact {
        state: fact.state,
        order_key: clone_opt_text(&fact.order_key),
        field: fact.field,
        offset_minutes: fact.offset_minutes,
        source_revision: clone_opt_text(&fact.source_revision),
    }
}

/// The stored row of an Original File.
#[derive(Clone, Debug, PartialEq, Eq)]
pub struct OriginalRecord {
    pub id: String,
    pub relative_path: String,
    pub kind: OriginalKind,
    pub size: u64,
    pub mtime_ms: Real,
    pub available: bool,
    pub error_category: Option<OriginalErrorCategory>,
    pub error_message: Option<String>,
    pub capture: CaptureFact,
}

/// What an [`OriginalRecord`] stands for.
pub struct OriginalView {
    pub id: Seq<char>,
    pub relative_path: Seq<char>,
    pub kind: OriginalKind,
    pub size: u64,
    pub mtime_ms: Real,
    pub available: bool,
    pub error_category: Option<OriginalErrorCategory>,
    pub error_message: Option<Seq<char>>,
    pub capture: CaptureView,
}

impl View for OriginalRecord {
    type V = OriginalView;

    open spec fn view(&self) -> OriginalView {
        OriginalView {
            id: self.id@,
            relative_path: self.relative_path@,
            kind: self.kind,
            size: self.size,
            mtime_ms: self.mtime_ms,
            available: self.available,
            error_category: self.error_category,
            error_message: opt_text(self.error_message),
            capture: self.capture@,
        }
    }
}

/// What a list of Original Files stands for.
pub open spec fn originals_view(rows: Seq<OriginalRecord>) -> Seq<OriginalView> {
    Seq::new(rows.len(), |i: int| rows[i]@)
}

/// The identities of a list of Original Files.
pub open spec fn original_ids(rows: Seq<OriginalView>) -> Seq<Seq<char>> {
    Seq::new(rows.len(), |i: int| rows[i].id)
}

/// The Locations of a list of Original Files.
pub open spec fn original_paths(rows: Seq<OriginalView>) -> Seq<Seq<char>> {
    Seq::new(rows.len(), |i: int| rows[i].relative_path)
}

/// A copy of an Original File's row.
pub fn clone_original(row: &OriginalRecord) -> (copy: OriginalRecord)
    ensures
        copy == *row,
{
    OriginalRecord {
        id: row.id.clone(),
        relative_path: row.relative_path.clone(),
        kind: row.kind,
        size: row.size,
        mtime_ms: row.mtime_ms,
        available: row.available,
        error_category: row.error_category,
        error_message: clone_opt_text(&row.error_message),
        capture: clone_capture(&row.capture),
    }
}

/// The last index of an Original File by its identity.
pub fn index_of_original(rows: &Vec<OriginalRecord>, id: &String) -> (index: Option<usize>)
    ensures
        match index {
            Some(i) => last_index(original_ids(originals_view(rows@)), id@) == Some(i as int) && i
                < rows.len() && rows@[i as int].id@ == id@,
            None => last_index(original_ids(originals_view(rows@)), id@) is None,
        },
{
    let ghost ids = original_ids(originals_view(rows@));
    let mut i: usize = rows.len();
    while i > 0
        invariant
            i <= rows.len(),
            ids == original_ids(originals_view(rows@)),
            forall|j: int| i <= j < rows.len() ==> ids[j] != id@,
        decreases i,
    {
        i = i - 1;
        assert(ids[i as int] == rows@[i as int].id@);
        if same_text(&rows[i].id, id) {
            proof {
                lemma_last_index(ids, id@, i as int);
            }
            return Some(i);
        }
    }
    proof {
        lemma_last_index_found(ids, id@);
    }
    None
}

/// The last index of an Original File by its Location.
pub fn index_of_location(rows: &Vec<OriginalRecord>, path: &String) -> (index: Option<usize>)
    ensures
        match index {
            Some(i) => last_index(original_paths(originals_view(rows@)), path@) == Some(i as int)
                && i < rows.len() && rows@[i as int].relative_path@ == path@,
            None => last_index(original_paths(originals_view(rows@)), path@) is None,
        },
{
    let ghost paths = original_paths(originals_view(rows@));
    let mut i: usize = rows.len();
    while i > 0
        invariant
            i <= rows.len(),
            paths == original_paths(originals_view(rows@)),
            forall|j: int| i <= j < rows.len() ==> paths[j] != path@,
        decreases i,
    {
        i = i - 1;
        assert(paths[i as int] == rows@[i as int].relative_path@);
        if same_text(&rows[i].relative_path, path) {
            proof {
                lemma_last_index(paths, path@, i as int);
            }
            return Some(i);
        }
    }
    proof {
        lemma_last_index_found(paths, path@);
    }
    None
}

/// What a scan found at a Location.
#[derive(Clone, Debug, PartialEq, Eq)]
pub struct DiscoveredOriginal {
    pub path: String,
    pub kind: OriginalKind,
    pub size: u64,
    pub mtime_ms: Real,
    pub error_category: Option<OriginalErrorCategory>,
    pub error_message: Option<String>,
    pub capture: CaptureFact,
}

/// The Locations of a list of discoveries.
pub open spec fn discovered_paths(list: Seq<DiscoveredOriginal>) -> Seq<Seq<char>> {
    Seq::new(list.len(), |i: int| list[i].path@)
}

/// The last index of a discovery by its Location.
pub fn index_of_discovery(list: &Vec<DiscoveredOriginal>, path: &String) -> (index: Option<usize>)
    ensures
        match index {
            Some(i) => last_index(discovered_paths(list@), path@) == Some(i as int) && i
                < list.len(),
            None => last_index(discovered_paths(list@), path@) is None,
        },
{
    let ghost paths = discovered_paths(list@);
    let mut i: usize = list.len();
    while i > 0
        invariant
            i <= list.len(),
            paths == discovered_paths(list@),
            forall|j: int| i <= j < list.len() ==> paths[j] != path@,
        decreases i,
    {
        i = i - 1;
        assert(paths[i as int] == list@[i as int].path@);
        if same_text(&list[i].path, path) {
            proof {
                lemma_last_index(paths, path@, i as int);
            }
            return Some(i);
        }
    }
    proof {
        lemma_last_index_found(paths, path@);
    }
    None
}

/// The stored row of a Photo.
#[derive(Clone, Debug, PartialEq, Eq)]
pub struct PhotoRecord {
    pub id: String,
    pub original_id: String,
    pub available: bool,
    pub preview_state: PreviewState,
    pub preview_source_revision: Option<String>,
    pub preview_width: Option<u32>,
    pub preview_height: Option<u32>,
    pub cache_revision: Option<String>,
    pub sort_path: String,
    pub selection_state: SelectionState,
    pub rating: u8,
    pub has_saved_edits: bool,
    pub removed: bool,
}

/// What a [`PhotoRecord`] stands for.
pub struct PhotoView {
    pub id: Seq<char>,
    pub original_id: Seq<char>,
    pub available: bool,
    pub preview_state: PreviewState,
    pub preview_source_revision: Option<Seq<char>>,
    pub preview_width: Option<u32>,
    pub preview_height: Option<u32>,
    pub cache_revision: Option<Seq<char>>,
    pub sort_path: Seq<char>,
    pub selection_state: SelectionState,
    pub rating: u8,
    pub has_saved_edits: bool,
    pub removed: bool,
}

impl View for PhotoRecord {
    type V = PhotoView;

    open spec fn view(&self) -> PhotoView {
        PhotoView {
            id: self.id@,
            original_id: self.original_id@,
            available: self.available,
            preview_state: self.preview_state,
            preview_source_revision: opt_text(self.preview_source_revision),
            preview_width: self.preview_width,
            preview_height: self.preview_height,
            cache_revision: opt_text(self.cache_revision),
            sort_path: self.sort_path@,
            selection_state: self.selection_state,
            rating: self.rating,
            has_saved_edits: self.has_saved_edits,
            removed: self.removed,
        }
    }
}

/// What a list of Photos stands for.
pub open spec fn photos_view(rows: Seq<PhotoRecord>) -> Seq<PhotoView> {
    Seq::new(rows.len(), |i: int| rows[i]@)
}

/// The identities of a list of Photos.
pub open spec fn photo_ids(rows: Seq<PhotoView>) -> Seq<Seq<char>> {
    Seq::new(rows.len(), |i: int| rows[i].id)
}

/// A copy of a Photo's row.
pub fn clone_photo(row: &PhotoRecord) -> (copy: PhotoRecord)
    ensures
        copy == *row,
{
    PhotoRecord {
        id: row.id.clone(),
        original_id: row.original_id.clone(),
        available: row.available,
        preview_state: row.preview_state,
        preview_source_revision: clone_opt_text(&row.preview_source_revision),
        preview_width: row.preview_width,
        preview_height: row.preview_height,
        cache_revision: clone_opt_text(&row.cache_revision),
        sort_path: row.sort_path.clone(),
        selection_state: row.selection_state,
        rating: row.rating,
        has_saved_edits: row.has_saved_edits,
        removed: row.removed,
    }
}

/// The last index of a Photo by its identity.
pub fn index_of_photo_row(rows: &Vec<PhotoRecord>, id: &String) -> (index: Option<usize>)
    ensures
        match index {
            Some(i) => last_index(photo_ids(photos_view(rows@)), id@) == Some(i as int) && i
                < rows.len() && rows@[i as int].id@ == id@,
            None => last_index(photo_ids(photos_view(rows@)), id@) is None,
        },
{
    let ghost ids = photo_ids(photos_view(rows@));
    let mut i: usize = rows.len();
    while i > 0
        invariant
            i <= rows.len(),
            ids == photo_ids(photos_view(rows@)),
            forall|j: int| i <= j < rows.len() ==> ids[j] != id@,
        decreases i,
    {
        i = i - 1;
        assert(ids[i as int] == rows@[i as int].id@);
        if same_text(&rows[i].id, id) {
            proof {
                lemma_last_index(ids, id@, i as int);
            }
            return Some(i);
        }
    }
    proof {
        lemma_last_index_found(ids, id@);
    }
    None
}

/// The stored fingerprint of an Original File: the digest of its content at one
/// size and time of change.
#[derive(Clone, Debug, PartialEq, Eq)]
pub struct OriginalFingerprint {
    pub original_id: String,
    pub digest: String,
    pub size: u64,
    pub mtime_ms: Real,
}

/// What an [`OriginalFingerprint`] stands for.
pub struct FingerprintView {
    pub original_id: Seq<char>,
    pub digest: Seq<char>,
    pub size: u64,
    pub mtime_ms: Real,
}

impl View for OriginalFingerprint {
    type V = FingerprintView;

    open spec fn view(&self) -> FingerprintView {
        FingerprintView {
            original_id: self.original_id@,
            digest: self.digest@,
            size: self.size,
            mtime_ms: self.mtime_ms,
        }
    }
}

/// What a list of fingerprints stands for.
pub open spec fn fingerprints_view(rows: Seq<OriginalFingerprint>) -> Seq<FingerprintView> {
    Seq::new(rows.len(), |i: int| rows[i]@)
}

/// The Original Files of a list of fingerprints.
pub open spec fn fingerprint_ids(rows: Seq<FingerprintView>) -> Seq<Seq<char>> {
    Seq::new(rows.len(), |i: int| rows[i].original_id)
}

/// A copy of a fingerprint.
pub fn clone_fingerprint(row: &OriginalFingerprint) -> (copy: OriginalFingerprint)
    ensures
        copy == *row,
{
    OriginalFingerprint {
        original_id: row.original_id.clone(),
        digest: row.digest.clone(),
        size: row.size,
        mtime_ms: row.mtime_ms,
    }
}

/// The last index of a fingerprint by its Original File.
pub fn index_of_fingerprint(rows: &Vec<OriginalFingerprint>, id: &String) -> (index: Option<usize>)
    ensures
        match index {
            Some(i) => last_index(fingerprint_ids(fingerprints_view(rows@)), id@) == Some(i as int)
                && i < rows.len() && rows@[i as int].original_id@ == id@,
            None => last_index(fingerprint_ids(fingerprints_view(rows@)), id@) is None,
        },
{
    let ghost ids = fingerprint_ids(fingerprints_view(rows@));
    let mut i: usize = rows.len();
    while i > 0
        invariant
            i <= rows.len(),
            ids == fingerprint_ids(fingerprints_view(rows@)),
            forall|j: int| i <= j < rows.len() ==> ids[j] != id@,
        decreases i,
    {
        i = i - 1;
        assert(ids[i as int] == rows@[i as int].original_id@);
        if same_text(&rows[i].original_id, id) {
            proof {
                lemma_last_index(ids, id@, i as int);
            }
            return Some(i);
        }
    }
    proof {
        lemma_last_index_found(ids, id@);
    }
    None
}

/// An Original File whose content was found at another Location.
#[derive(Clone, Debug, PartialEq, Eq)]
pub struct ScanRelocation {
    pub path: String,
    pub original_id: String,
}

/// A digest that was computed for the file at a discovered Location.
#[derive(Clone, Debug, PartialEq, Eq)]
pub struct DiscoveredFingerprint {
    pub path: String,
    pub digest: String,
}

/// What was proven outside of the store and is applied with a scan: which
/// Original File each relocated Location belongs to, and the digests that were
/// computed. No Location occurs twice among the relocations.
#[derive(Clone, Debug, PartialEq, Eq)]
pub struct ScanRecoveryPlan {
    pub relocations: Vec<ScanRelocation>,
    pub fingerprints: Vec<DiscoveredFingerprint>,
}

/// The Locations of a list of relocations.
pub open spec fn relocation_paths(list: Seq<ScanRelocation>) -> Seq<Seq<char>> {
    Seq::new(list.len(), |i: int| list[i].path@)
}

/// The Original Files of a list of relocations.
pub open spec fn relocation_ids(list: Seq<ScanRelocation>) -> Seq<Seq<char>> {
    Seq::new(list.len(), |i: int| list[i].original_id@)
}

/// The last index of a relocation by its Location.
pub fn index_of_relocated_path(list: &Vec<ScanRelocation>, path: &String) -> (index: Option<usize>)
    ensures
        match index {
            Some(i) => last_index(relocation_paths(list@), path@) == Some(i as int) && i
                < list.len(),
            None => last_index(relocation_paths(list@), path@) is None,
        },
{
    let ghost paths = relocation_paths(list@);
    let mut i: usize = list.len();
    while i > 0
        invariant
            i <= list.len(),
            paths == relocation_paths(list@),
            forall|j: int| i <= j < list.len() ==> paths[j] != path@,
        decreases i,
    {
        i = i - 1;
        assert(paths[i as int] == list@[i as int].path@);
        if same_text(&list[i].path, path) {
            proof {
                lemma_last_index(paths, path@, i as int);
            }
            return Some(i);
        }
    }
    proof {
        lemma_last_index_found(paths, path@);
    }
    None
}

/// The last index of a relocation by its Original File.
pub fn index_of_relocated_id(list: &Vec<ScanRelocation>, id: &String) -> (index: Option<usize>)
    ensures
        match index {
            Some(i) => last_index(relocation_ids(list@), id@) == Some(i as int) && i < list.len(),
            None => last_index(relocation_ids(list@), id@) is None,
        },
{
    let ghost ids = relocation_ids(list@);
    let mut i: usize = list.len();
    while i > 0
        invariant
            i <= list.len(),
            ids == relocation_ids(list@),
            forall|j: int| i <= j < list.len() ==> ids[j] != id@,
        decreases i,
    {
        i = i - 1;
        assert(ids[i as int] == list@[i as int].original_id@);
        if same_text(&list[i].original_id, id) {
            proof {
                lemma_last_index(ids, id@, i as int);
            }
            return Some(i);
        }
    }
    proof {
        lemma_last_index_found(ids, id@);
    }
    None
}

/// The stored rows that a scan reads and writes.
#[derive(Clone, Debug, PartialEq, Eq)]
pub struct ScanTables {
    pub originals: Vec<OriginalRecord>,
    pub photos: Vec<PhotoRecord>,
    pub fingerprints: Vec<OriginalFingerprint>,
    pub published: bool,
}

/// Capture facts that are yet to be read hold nothing.
pub proof fn law_pending_capture_facts_hold_nothing(fact: CaptureFact)
    requires
        call_ensures(new_pending_capture, (), fact),
    ensures
        fact.state == CaptureMetadataState::Pending,
        fact.order_key is None,
        fact.field is None,
        fact.offset_minutes is None,
        fact.source_revision is None,
{
}

} // verus!
