//! The migration that gives every Original File a Photo of its own. A Photo that
//! paired a RAW file with a JPEG keeps its identity, its decisions and its Album
//! memberships on the RAW file; the JPEG gets a new Photo.
use crate::binary::Real;
use crate::codec::{
    kind_of, law_kinds_are_stored_by_name, legacy_source_name, parse_kind, source_of_kind,
    OriginalKind,
};
use crate::error::PersistenceError;
use crate::identity::reserve_library_id;
use crate::text::{
    clone_opt_text, contains_text, is_text, last_index, lemma_last_index, lemma_last_index_found,
    lemma_texts_push, opt_text, same_text, texts,
};
use vstd::prelude::*;
use vstd::string::*;

verus! {

/// The columns of an Original File, and its revision where one can be told.
#[derive(Clone, Debug, PartialEq, Eq)]
pub struct PairedOriginalRow {
    pub id: String,
    pub available: i64,
    pub relative_path: String,
    pub size: i64,
    pub mtime_ms: Real,
    pub kind: String,
    pub revision: Option<String>,
}

/// What the migration reads of an Original File.
#[derive(Clone, Debug, PartialEq, Eq)]
pub struct PairedOriginal {
    pub id: String,
    pub available: bool,
    pub relative_path: String,
    pub kind: OriginalKind,
    pub revision: Option<String>,
}

/// What the migration reads of the columns of an Original File.
pub open spec fn read_paired(row: PairedOriginalRow) -> PairedOriginal {
    PairedOriginal {
        id: row.id,
        available: row.available != 0,
        relative_path: row.relative_path,
        kind: kind_of(row.kind@)->0,
        revision: row.revision,
    }
}

/// Reads the Original Files: a size below zero is a failure of storage, and a
/// kind that has no name is no data that can be migrated.
pub fn original_facts_by_id(rows: &Vec<PairedOriginalRow>) -> (result: Result<
    Vec<PairedOriginal>,
    PersistenceError,
>)
    ensures
        if exists|i: int| 0 <= i < rows.len() && (#[trigger] rows@[i]).size < 0 {
            result == Err::<Vec<PairedOriginal>, PersistenceError>(PersistenceError::Storage)
        } else if exists|i: int| 0 <= i < rows.len() && kind_of((#[trigger] rows@[i]).kind@) is None {
            result == Err::<Vec<PairedOriginal>, PersistenceError>(
                PersistenceError::InvalidLegacyData,
            )
        } else {
            result is Ok && result->Ok_0@ == Seq::new(
                rows@.len(),
                |i: int| read_paired(rows@[i]),
            )
        },
{
    let mut i: usize = 0;
    while i < rows.len()
        invariant
            i <= rows.len(),
            forall|j: int| 0 <= j < i ==> (#[trigger] rows@[j]).size >= 0,
        decreases rows.len() - i,
    {
        if rows[i].size < 0 {
            assert(rows@[i as int].size < 0);
            return Err(PersistenceError::Storage);
        }
        i = i + 1;
    }
    let mut facts: Vec<PairedOriginal> = Vec::new();
    let mut k: usize = 0;
    while k < rows.len()
        invariant
            k <= rows.len(),
            forall|j: int| 0 <= j < rows.len() ==> (#[trigger] rows@[j]).size >= 0,
            forall|j: int| 0 <= j < k ==> kind_of((#[trigger] rows@[j]).kind@) is Some,
            facts@ == Seq::new(k as nat, |i: int| read_paired(rows@[i])),
        decreases rows.len() - k,
    {
        let kind: OriginalKind = match parse_kind(&rows[k].kind) {
            Some(kind) => kind,
            None => {
                assert(kind_of(rows@[k as int].kind@) is None);
                return Err(PersistenceError::InvalidLegacyData);
            },
        };
        facts.push(
            PairedOriginal {
                id: rows[k].id.clone(),
                available: rows[k].available != 0,
                relative_path: rows[k].relative_path.clone(),
                kind,
                revision: clone_opt_text(&rows[k].revision),
            },
        );
        assert(facts@ =~= Seq::new((k + 1) as nat, |i: int| read_paired(rows@[i])));
        k = k + 1;
    }
    Ok(facts)
}

/// The row of a Photo that may pair two Original Files.
#[derive(Clone, Debug, PartialEq, Eq)]
pub struct PairedPhotoRow {
    pub id: String,
    pub raw_original_id: Option<String>,
    pub jpeg_original_id: Option<String>,
    pub preview_state: String,
    pub preview_source: Option<String>,
    pub preview_source_revision: Option<String>,
    pub preview_width: Option<i64>,
    pub preview_height: Option<i64>,
    pub cache_revision: Option<String>,
    pub sort_path: String,
    pub selection_state: String,
    pub rating: i64,
}

/// The row of a Photo of one Original File.
#[derive(Clone, Debug, PartialEq, Eq)]
pub struct SplitPhotoRow {
    pub id: String,
    pub original_id: String,
    pub available: bool,
    pub preview_state: String,
    pub preview_source_revision: Option<String>,
    pub preview_width: Option<i64>,
    pub preview_height: Option<i64>,
    pub cache_revision: Option<String>,
    pub sort_path: String,
    pub selection_state: String,
    pub rating: i64,
}

/// What a [`SplitPhotoRow`] stands for.
pub struct SplitPhotoView {
    pub id: Seq<char>,
    pub original_id: Seq<char>,
    pub available: bool,
    pub preview_state: Seq<char>,
    pub preview_source_revision: Option<Seq<char>>,
    pub preview_width: Option<i64>,
    pub preview_height: Option<i64>,
    pub cache_revision: Option<Seq<char>>,
    pub sort_path: Seq<char>,
    pub selection_state: Seq<char>,
    pub rating: i64,
}

impl View for SplitPhotoRow {
    type V = SplitPhotoView;

    open spec fn view(&self) -> SplitPhotoView {
        SplitPhotoView {
            id: self.id@,
            original_id: self.original_id@,
            available: self.available,
            preview_state: self.preview_state@,
            preview_source_revision: opt_text(self.preview_source_revision),
            preview_width: self.preview_width,
            preview_height: self.preview_height,
            cache_revision: opt_text(self.cache_revision),
            sort_path: self.sort_path@,
            selection_state: self.selection_state@,
            rating: self.rating,
        }
    }
}

/// What a list of Photos of one Original File each stands for.
pub open spec fn split_view(rows: Seq<SplitPhotoRow>) -> Seq<SplitPhotoView> {
    Seq::new(rows.len(), |i: int| rows[i]@)
}

/// The identities of a list of Photos.
pub open spec fn split_ids(rows: Seq<SplitPhotoView>) -> Seq<Seq<char>> {
    Seq::new(rows.len(), |i: int| rows[i].id)
}

/// The Original Files of a list of Photos.
pub open spec fn split_owners(rows: Seq<SplitPhotoView>) -> Seq<Seq<char>> {
    Seq::new(rows.len(), |i: int| rows[i].original_id)
}

/// The identities of a list of Original Files.
pub open spec fn paired_ids(originals: Seq<PairedOriginal>) -> Seq<Seq<char>> {
    Seq::new(originals.len(), |i: int| originals[i].id@)
}

/// The Original File that a Photo keeps: the RAW file, else the JPEG.
pub open spec fn kept_id(photo: PairedPhotoRow) -> Option<Seq<char>> {
    match photo.raw_original_id {
        Some(id) => Some(id@),
        None => opt_text(photo.jpeg_original_id),
    }
}

/// Whether the Preview of a Photo describes the Original File that it keeps: it
/// was made of that kind of source, in the revision that is stored.
pub open spec fn preview_kept(photo: PairedPhotoRow, original: PairedOriginal) -> bool {
    &&& opt_text(photo.preview_source) == Some(legacy_source_name(source_of_kind(original.kind)))
    &&& same_revision(photo.preview_source_revision, original.revision)
}

/// Whether a stored revision is there and is the current one.
pub open spec fn same_revision(stored: Option<String>, current: Option<String>) -> bool {
    stored is Some && current is Some && stored->0@ == current->0@
}

/// Whether a stored revision is there and is the current one.
pub fn revision_matches(stored: &Option<String>, current: &Option<String>) -> (answer: bool)
    ensures
        answer == same_revision(*stored, *current),
{
    match (stored, current) {
        (Some(a), Some(b)) => same_text(a, b),
        _ => false,
    }
}

/// The row of a Photo on the Original File that it keeps.
pub open spec fn kept_row(photo: PairedPhotoRow, original: PairedOriginal) -> SplitPhotoView {
    let kept = preview_kept(photo, original);
    SplitPhotoView {
        id: photo.id@,
        original_id: original.id@,
        available: original.available,
        preview_state: if kept {
            photo.preview_state@
        } else {
            "inspection-pending"@
        },
        preview_source_revision: if kept {
            opt_text(photo.preview_source_revision)
        } else {
            None
        },
        preview_width: if kept {
            photo.preview_width
        } else {
            None
        },
        preview_height: if kept {
            photo.preview_height
        } else {
            None
        },
        cache_revision: if kept {
            opt_text(photo.cache_revision)
        } else {
            None
        },
        sort_path: photo.sort_path@,
        selection_state: photo.selection_state@,
        rating: photo.rating,
    }
}

/// The row of the new Photo of a JPEG that was paired.
pub open spec fn new_row(id: Seq<char>, original: PairedOriginal) -> SplitPhotoView {
    SplitPhotoView {
        id,
        original_id: original.id@,
        available: original.available,
        preview_state: "inspection-pending"@,
        preview_source_revision: None,
        preview_width: None,
        preview_height: None,
        cache_revision: None,
        sort_path: original.relative_path@,
        selection_state: "undecided"@,
        rating: 0,
    }
}

/// Whether a row can be stored: no Photo has its identity or its Original File.
pub open spec fn fits(rows: Seq<SplitPhotoView>, row: SplitPhotoView) -> bool {
    !split_ids(rows).contains(row.id) && !split_owners(rows).contains(row.original_id)
}

/// The migration up to some Photo: the rows that were made, the identities that
/// were taken for new ones, and the paired Photos that are still there.
pub struct SplitState {
    pub rows: Seq<SplitPhotoView>,
    pub reserved: Seq<Seq<char>>,
    pub present: Seq<Seq<char>>,
}

/// The migration once one more Photo is split.
pub open spec fn split_one(
    state: SplitState,
    photo: PairedPhotoRow,
    originals: Seq<PairedOriginal>,
    members: Seq<Seq<char>>,
    fresh: Seq<Seq<char>>,
) -> Result<SplitState, PersistenceError> {
    match kept_id(photo) {
        None => if members.contains(photo.id@) {
            Err(PersistenceError::InvalidLegacyData)
        } else {
            Ok(
                SplitState {
                    present: match last_index(state.present, photo.id@) {
                        Some(k) => state.present.remove(k),
                        None => state.present,
                    },
                    ..state
                },
            )
        },
        Some(kept) => match last_index(paired_ids(originals), kept) {
            None => Err(PersistenceError::InvalidLegacyData),
            Some(k) => {
                let row = kept_row(photo, originals[k]);
                let rows = state.rows.push(row);
                if !fits(state.rows, row) {
                    Err(PersistenceError::InvalidLegacyData)
                } else if photo.raw_original_id is None || photo.jpeg_original_id is None {
                    Ok(SplitState { rows, ..state })
                } else {
                    match last_index(paired_ids(originals), photo.jpeg_original_id->0@) {
                        None => Err(PersistenceError::InvalidLegacyData),
                        Some(j) => {
                            let id = fresh[state.reserved.len() as int];
                            let second = new_row(id, originals[j]);
                            if paired_ids(originals).contains(id) || state.present.contains(id)
                                || state.reserved.contains(id) {
                                Err(PersistenceError::IdCollision)
                            } else if !fits(rows, second) {
                                Err(PersistenceError::InvalidLegacyData)
                            } else {
                                Ok(
                                    SplitState {
                                        rows: rows.push(second),
                                        reserved: state.reserved.push(id),
                                        present: state.present,
                                    },
                                )
                            }
                        },
                    }
                }
            },
        },
    }
}

/// The migration once the given Photos are split.
pub open spec fn split_all(
    photos: Seq<PairedPhotoRow>,
    present: Seq<Seq<char>>,
    originals: Seq<PairedOriginal>,
    members: Seq<Seq<char>>,
    fresh: Seq<Seq<char>>,
) -> Result<SplitState, PersistenceError>
    decreases photos.len(),
{
    if photos.len() == 0 {
        Ok(SplitState { rows: Seq::empty(), reserved: Seq::empty(), present })
    } else {
        match split_all(photos.drop_last(), present, originals, members, fresh) {
            Err(error) => Err(error),
            Ok(before) => split_one(before, photos.last(), originals, members, fresh),
        }
    }
}

/// The identities of a list of paired Photos.
pub open spec fn paired_photo_ids(photos: Seq<PairedPhotoRow>) -> Seq<Seq<char>> {
    Seq::new(photos.len(), |i: int| photos[i].id@)
}

proof fn lemma_split_stopped(
    photos: Seq<PairedPhotoRow>,
    present: Seq<Seq<char>>,
    originals: Seq<PairedOriginal>,
    members: Seq<Seq<char>>,
    fresh: Seq<Seq<char>>,
    n: int,
)
    requires
        0 <= n <= photos.len(),
        split_all(photos.take(n), present, originals, members, fresh) is Err,
    ensures
        split_all(photos, present, originals, members, fresh) == split_all(
            photos.take(n),
            present,
            originals,
            members,
            fresh,
        ),
    decreases photos.len(),
{
    if n == photos.len() {
        assert(photos.take(n) =~= photos);
    } else {
        assert(photos.drop_last().take(n) =~= photos.take(n));
        lemma_split_stopped(photos.drop_last(), present, originals, members, fresh, n);
    }
}

fn index_of_paired(originals: &Vec<PairedOriginal>, id: &String) -> (index: Option<usize>)
    ensures
        match index {
            Some(i) => last_index(paired_ids(originals@), id@) == Some(i as int) && i
                < originals.len(),
            None => last_index(paired_ids(originals@), id@) is None,
        },
{
    let ghost ids = paired_ids(originals@);
    let mut i: usize = originals.len();
    while i > 0
        invariant
            i <= originals.len(),
            ids == paired_ids(originals@),
            forall|j: int| i <= j < originals.len() ==> ids[j] != id@,
        decreases i,
    {
        i = i - 1;
        assert(ids[i as int] == originals@[i as int].id@);
        if same_text(&originals[i].id, id) {
            proof {
                lemma_last_index(ids, id@, i as int);
            }
            return Some(i);
        }
    }
    proof {
        lemma_last_index_found(ids, id@);
    }
    None
}

fn does_fit(rows: &Vec<SplitPhotoRow>, row: &SplitPhotoRow) -> (answer: bool)
    ensures
        answer == fits(split_view(rows@), row@),
{
    let ghost ids = split_ids(split_view(rows@));
    let ghost owners = split_owners(split_view(rows@));
    let mut i: usize = 0;
    while i < rows.len()
        invariant
            i <= rows.len(),
            ids == split_ids(split_view(rows@)),
            owners == split_owners(split_view(rows@)),
            forall|j: int| 0 <= j < i ==> ids[j] != row.id@,
            forall|j: int| 0 <= j < i ==> owners[j] != row.original_id@,
        decreases rows.len() - i,
    {
        assert(ids[i as int] == rows@[i as int].id@);
        assert(owners[i as int] == rows@[i as int].original_id@);
        if same_text(&rows[i].id, &row.id) || same_text(&rows[i].original_id, &row.original_id) {
            return false;
        }
        i = i + 1;
    }
    true
}

fn make_kept_row(photo: &PairedPhotoRow, original: &PairedOriginal) -> (row: SplitPhotoRow)
    ensures
        row@ == kept_row(*photo, *original),
{
    let source: bool = match &photo.preview_source {
        Some(name) => is_text(name, original.kind.preview_source().legacy_database_name()),
        None => false,
    };
    let kept: bool = source && revision_matches(&photo.preview_source_revision, &original.revision);
    assert(kept == preview_kept(*photo, *original));
    if kept {
        SplitPhotoRow {
            id: photo.id.clone(),
            original_id: original.id.clone(),
            available: original.available,
            preview_state: photo.preview_state.clone(),
            preview_source_revision: clone_opt_text(&photo.preview_source_revision),
            preview_width: photo.preview_width,
            preview_height: photo.preview_height,
            cache_revision: clone_opt_text(&photo.cache_revision),
            sort_path: photo.sort_path.clone(),
            selection_state: photo.selection_state.clone(),
            rating: photo.rating,
        }
    } else {
        SplitPhotoRow {
            id: photo.id.clone(),
            original_id: original.id.clone(),
            available: original.available,
            preview_state: "inspection-pending".to_owned(),
            preview_source_revision: None,
            preview_width: None,
            preview_height: None,
            cache_revision: None,
            sort_path: photo.sort_path.clone(),
            selection_state: photo.selection_state.clone(),
            rating: photo.rating,
        }
    }
}

fn list_paired_ids(originals: &Vec<PairedOriginal>) -> (ids: Vec<String>)
    ensures
        texts(ids@) == paired_ids(originals@),
{
    let ghost all = paired_ids(originals@);
    let mut ids: Vec<String> = Vec::new();
    let mut i: usize = 0;
    while i < originals.len()
        invariant
            i <= originals.len(),
            all == paired_ids(originals@),
            texts(ids@) == all.take(i as int),
        decreases originals.len() - i,
    {
        let id: String = originals[i].id.clone();
        proof {
            lemma_texts_push(ids@, id);
            assert(all.take(i + 1) =~= all.take(i as int).push(id@));
        }
        ids.push(id);
        i = i + 1;
    }
    assert(all.take(all.len() as int) =~= all);
    ids
}

fn list_paired_photos(photos: &Vec<PairedPhotoRow>) -> (ids: Vec<String>)
    ensures
        texts(ids@) == paired_photo_ids(photos@),
{
    let ghost all = paired_photo_ids(photos@);
    let mut ids: Vec<String> = Vec::new();
    let mut i: usize = 0;
    while i < photos.len()
        invariant
            i <= photos.len(),
            all == paired_photo_ids(photos@),
            texts(ids@) == all.take(i as int),
        decreases photos.len() - i,
    {
        let id: String = photos[i].id.clone();
        proof {
            lemma_texts_push(ids@, id);
            assert(all.take(i + 1) =~= all.take(i as int).push(id@));
        }
        ids.push(id);
        i = i + 1;
    }
    assert(all.take(all.len() as int) =~= all);
    ids
}

fn remove_text(list: &mut Vec<String>, text: &String)
    ensures
        texts(final(list)@) == (match last_index(texts(old(list)@), text@) {
            Some(k) => texts(old(list)@).remove(k),
            None => texts(old(list)@),
        }),
{
    let ghost before = texts(list@);
    let mut i: usize = list.len();
    while i > 0
        invariant
            i <= list.len(),
            list@ == old(list)@,
            before == texts(list@),
            forall|j: int| i <= j < list.len() ==> before[j] != text@,
        decreases i,
    {
        i = i - 1;
        assert(before[i as int] == list@[i as int]@);
        if same_text(&list[i], text) {
            proof {
                lemma_last_index(before, text@, i as int);
                assert(texts(list@.remove(i as int)) =~= before.remove(i as int));
            }
            list.remove(i);
            return;
        }
    }
    proof {
        lemma_last_index_found(before, text@);
    }
}

/// Splits every Photo that pairs a RAW file with a JPEG. `members` are the Photos
/// that are in an Album, and `fresh` holds random identities, one for each Photo
/// that may need one. A Photo without an Original File is given up unless an
/// Album refers to it.
pub fn migrate_v5(
    photos: &Vec<PairedPhotoRow>,
    originals: &Vec<PairedOriginal>,
    members: &Vec<String>,
    fresh: &Vec<String>,
) -> (result: Result<Vec<SplitPhotoRow>, PersistenceError>)
    requires
        photos.len() <= fresh.len(),
    ensures
        match split_all(
            photos@,
            paired_photo_ids(photos@),
            originals@,
            texts(members@),
            texts(fresh@),
        ) {
            Ok(state) => result is Ok && split_view(result->Ok_0@) == state.rows,
            Err(error) => result == Err::<Vec<SplitPhotoRow>, PersistenceError>(error),
        },
{
    let ghost start = paired_photo_ids(photos@);
    let original_list: Vec<String> = list_paired_ids(originals);
    let mut present: Vec<String> = list_paired_photos(photos);
    let mut reserved: Vec<String> = Vec::new();
    let mut rows: Vec<SplitPhotoRow> = Vec::new();
    let mut i: usize = 0;
    proof {
        assert(photos@.take(0) =~= Seq::<PairedPhotoRow>::empty());
        assert(texts(reserved@) =~= Seq::<Seq<char>>::empty());
        assert(split_view(rows@) =~= Seq::<SplitPhotoView>::empty());
    }
    while i < photos.len()
        invariant
            i <= photos.len(),
            photos.len() <= fresh.len(),
            reserved.len() <= i,
            start == paired_photo_ids(photos@),
            texts(original_list@) == paired_ids(originals@),
            split_all(
                photos@.take(i as int),
                start,
                originals@,
                texts(members@),
                texts(fresh@),
            ) == Ok::<SplitState, PersistenceError>(
                SplitState {
                    rows: split_view(rows@),
                    reserved: texts(reserved@),
                    present: texts(present@),
                },
            ),
        decreases photos.len() - i,
    {
        let photo: &PairedPhotoRow = &photos[i];
        let ghost before = SplitState {
            rows: split_view(rows@),
            reserved: texts(reserved@),
            present: texts(present@),
        };
        proof {
            assert(photos@.take(i + 1).drop_last() =~= photos@.take(i as int));
            assert(photos@.take(i + 1).last() == *photo);
            if split_one(before, *photo, originals@, texts(members@), texts(fresh@)) is Err {
                lemma_split_stopped(
                    photos@,
                    start,
                    originals@,
                    texts(members@),
                    texts(fresh@),
                    i + 1,
                );
            }
        }
        let kept: Option<&String> = match &photo.raw_original_id {
            Some(id) => Some(id),
            None => match &photo.jpeg_original_id {
                Some(id) => Some(id),
                None => None,
            },
        };
        match kept {
            None => {
                if contains_text(members, &photo.id) {
                    return Err(PersistenceError::InvalidLegacyData);
                }
                remove_text(&mut present, &photo.id);
            },
            Some(id) => {
                let k: usize = match index_of_paired(originals, id) {
                    Some(k) => k,
                    None => {
                        return Err(PersistenceError::InvalidLegacyData);
                    },
                };
                let row: SplitPhotoRow = make_kept_row(photo, &originals[k]);
                if !does_fit(&rows, &row) {
                    return Err(PersistenceError::InvalidLegacyData);
                }
                assert(split_view(rows@.push(row)) =~= split_view(rows@).push(row@));
                rows.push(row);
                match &photo.jpeg_original_id {
                    Some(jpeg) => {
                        if photo.raw_original_id.is_some() {
                            let j: usize = match index_of_paired(originals, jpeg) {
                                Some(j) => j,
                                None => {
                                    return Err(PersistenceError::InvalidLegacyData);
                                },
                            };
                            let candidate: String = fresh[reserved.len()].clone();
                            assert(texts(fresh@)[texts(reserved@).len() as int] == candidate@);
                            let new_id: String = match reserve_library_id(
                                &original_list,
                                &present,
                                &mut reserved,
                                candidate,
                            ) {
                                Ok(id) => id,
                                Err(_) => {
                                    return Err(PersistenceError::IdCollision);
                                },
                            };
                            assert(texts(reserved@).len() == reserved.len());
                            let second: SplitPhotoRow = SplitPhotoRow {
                                id: new_id,
                                original_id: originals[j].id.clone(),
                                available: originals[j].available,
                                preview_state: "inspection-pending".to_owned(),
                                preview_source_revision: None,
                                preview_width: None,
                                preview_height: None,
                                cache_revision: None,
                                sort_path: originals[j].relative_path.clone(),
                                selection_state: "undecided".to_owned(),
                                rating: 0,
                            };
                            assert(second@ == new_row(second.id@, originals@[j as int]));
                            if !does_fit(&rows, &second) {
                                return Err(PersistenceError::InvalidLegacyData);
                            }
                            assert(split_view(rows@.push(second)) =~= split_view(rows@).push(
                                second@,
                            ));
                            rows.push(second);
                        }
                    },
                    None => {},
                }
            },
        }
        i = i + 1;
    }
    assert(photos@.take(photos@.len() as int) =~= photos@);
    Ok(rows)
}

/// After the migration no two Photos share an identity or an Original File.
pub proof fn law_split_photos_stay_apart(
    photos: Seq<PairedPhotoRow>,
    present: Seq<Seq<char>>,
    originals: Seq<PairedOriginal>,
    members: Seq<Seq<char>>,
    fresh: Seq<Seq<char>>,
)
    requires
        split_all(photos, present, originals, members, fresh) is Ok,
    ensures
        split_ids(
            split_all(photos, present, originals, members, fresh)->Ok_0.rows,
        ).no_duplicates(),
        split_owners(
            split_all(photos, present, originals, members, fresh)->Ok_0.rows,
        ).no_duplicates(),
    decreases photos.len(),
{
    if photos.len() > 0 {
        law_split_photos_stay_apart(photos.drop_last(), present, originals, members, fresh);
        let before = split_all(photos.drop_last(), present, originals, members, fresh)->Ok_0;
        let after = split_all(photos, present, originals, members, fresh)->Ok_0;
        let photo = photos.last();
        if kept_id(photo) is Some {
            let k = last_index(paired_ids(originals), kept_id(photo)->0)->0;
            let row = kept_row(photo, originals[k]);
            lemma_fitting_row(before.rows, row);
            if photo.raw_original_id is Some && photo.jpeg_original_id is Some {
                let j = last_index(paired_ids(originals), photo.jpeg_original_id->0@)->0;
                let second = new_row(fresh[before.reserved.len() as int], originals[j]);
                lemma_fitting_row(before.rows.push(row), second);
            }
        }
    }
}

proof fn lemma_fitting_row(rows: Seq<SplitPhotoView>, row: SplitPhotoView)
    requires
        split_ids(rows).no_duplicates(),
        split_owners(rows).no_duplicates(),
        fits(rows, row),
    ensures
        split_ids(rows.push(row)).no_duplicates(),
        split_owners(rows.push(row)).no_duplicates(),
{
    let ids = split_ids(rows.push(row));
    let owners = split_owners(rows.push(row));
    assert forall|i: int, j: int|
        0 <= i < ids.len() && 0 <= j < ids.len() && i != j implies ids[i] != ids[j] && owners[i]
        != owners[j] by {
        if i < rows.len() && j < rows.len() {
            assert(split_ids(rows)[i] != split_ids(rows)[j]);
            assert(split_owners(rows)[i] != split_owners(rows)[j]);
        } else if i < rows.len() {
            assert(split_ids(rows).contains(split_ids(rows)[i]));
            assert(split_owners(rows).contains(split_owners(rows)[i]));
        } else {
            assert(split_ids(rows).contains(split_ids(rows)[j]));
            assert(split_owners(rows).contains(split_owners(rows)[j]));
        }
    }
}

proof fn lemma_rows_only_grow(
    photos: Seq<PairedPhotoRow>,
    present: Seq<Seq<char>>,
    originals: Seq<PairedOriginal>,
    members: Seq<Seq<char>>,
    fresh: Seq<Seq<char>>,
    n: int,
    row: SplitPhotoView,
)
    requires
        0 <= n <= photos.len(),
        split_all(photos, present, originals, members, fresh) is Ok,
    ensures
        split_all(photos.take(n), present, originals, members, fresh) is Ok,
        split_all(photos.take(n), present, originals, members, fresh)->Ok_0.rows.contains(row)
            ==> split_all(photos, present, originals, members, fresh)->Ok_0.rows.contains(row),
    decreases photos.len(),
{
    if n == photos.len() {
        assert(photos.take(n) =~= photos);
    } else {
        assert(photos.drop_last().take(n) =~= photos.take(n));
        lemma_rows_only_grow(photos.drop_last(), present, originals, members, fresh, n, row);
        let before = split_all(photos.drop_last(), present, originals, members, fresh)->Ok_0.rows;
        let after = split_all(photos, present, originals, members, fresh)->Ok_0.rows;
        if before.contains(row) {
            let i = choose|i: int| 0 <= i < before.len() && before[i] == row;
            assert(after[i] == row);
        }
    }
}

/// The migration keeps every Photo that has an Original File: its identity, its
/// sort path and what was decided about it stay, on the RAW file where it paired
/// one. The JPEG of a pair has a Photo of its own, about which nothing was
/// decided.
pub proof fn law_split_keeps_photos(
    photos: Seq<PairedPhotoRow>,
    present: Seq<Seq<char>>,
    originals: Seq<PairedOriginal>,
    members: Seq<Seq<char>>,
    fresh: Seq<Seq<char>>,
    i: int,
)
    requires
        split_all(photos, present, originals, members, fresh) is Ok,
        0 <= i < photos.len(),
        kept_id(photos[i]) is Some,
    ensures
        ({
            let rows = split_all(photos, present, originals, members, fresh)->Ok_0.rows;
            let k = last_index(paired_ids(originals), kept_id(photos[i])->0);
            &&& k is Some
            &&& rows.contains(kept_row(photos[i], originals[k->0]))
            &&& photos[i].raw_original_id is Some && photos[i].jpeg_original_id is Some ==> exists|
                id: Seq<char>,
            |
                rows.contains(
                    #[trigger] new_row(
                        id,
                        originals[last_index(
                            paired_ids(originals),
                            photos[i].jpeg_original_id->0@,
                        )->0],
                    ),
                )
        }),
{
    let taken = photos.take(i + 1);
    let photo = photos[i];
    let k = last_index(paired_ids(originals), kept_id(photo)->0)->0;
    let row = kept_row(photo, originals[k]);
    lemma_rows_only_grow(photos, present, originals, members, fresh, i + 1, row);
    assert(taken.drop_last() =~= photos.take(i));
    assert(taken.last() == photo);
    let before = split_all(photos.take(i), present, originals, members, fresh)->Ok_0;
    let after = split_all(taken, present, originals, members, fresh)->Ok_0;
    assert(after.rows[before.rows.len() as int] == row);
    if photo.raw_original_id is Some && photo.jpeg_original_id is Some {
        let j = last_index(paired_ids(originals), photo.jpeg_original_id->0@)->0;
        let id = fresh[before.reserved.len() as int];
        let second = new_row(id, originals[j]);
        lemma_rows_only_grow(photos, present, originals, members, fresh, i + 1, second);
        assert(after.rows[(before.rows.len() + 1) as int] == second);
    }
}

/// Splitting pairs keeps every Photo that has an Original File under its identity, with
/// its selection, rating and sort path, and binds it to the RAW file of its pair, or to
/// the only file that it has. Its Preview stays only where it was made from that file as
/// it is; otherwise it is inspected anew.
pub proof fn law_split_photos_keep_their_decisions(
    photos: Seq<PairedPhotoRow>,
    originals: Seq<PairedOriginal>,
    members: Seq<Seq<char>>,
    fresh: Seq<Seq<char>>,
    rows: Seq<SplitPhotoRow>,
    i: int,
    k: int,
)
    requires
        split_all(photos, paired_photo_ids(photos), originals, members, fresh) is Ok,
        split_all(photos, paired_photo_ids(photos), originals, members, fresh)->Ok_0.rows
            == split_view(rows),
        0 <= i < photos.len(),
        0 <= k < originals.len(),
        photos[i].raw_original_id is Some ==> originals[k].id@ == photos[i].raw_original_id->0@,
        photos[i].raw_original_id is None ==> photos[i].jpeg_original_id is Some
            && originals[k].id@ == photos[i].jpeg_original_id->0@,
        forall|a: int, b: int|
            0 <= a < b < originals.len() ==> (#[trigger] originals[a]).id@ != (
            #[trigger] originals[b]).id@,
    ensures
        exists|r: int|
            0 <= r < rows.len() && {
                let row = #[trigger] rows[r];
                let photo = photos[i];
                let original = originals[k];
                let made = photo.preview_source is Some && ((original.kind == OriginalKind::Raw
                    && photo.preview_source->0@ == "embedded-raw-jpeg"@) || (original.kind
                    == OriginalKind::Jpeg && photo.preview_source->0@ == "matching-jpeg"@))
                    && photo.preview_source_revision is Some && original.revision is Some
                    && photo.preview_source_revision->0@ == original.revision->0@;
                &&& row.id@ == photo.id@
                &&& row.original_id@ == original.id@
                &&& row.available == original.available
                &&& row.sort_path@ == photo.sort_path@
                &&& row.selection_state@ == photo.selection_state@
                &&& row.rating == photo.rating
                &&& made ==> row.preview_state@ == photo.preview_state@ && opt_text(
                    row.preview_source_revision,
                ) == opt_text(photo.preview_source_revision) && row.preview_width
                    == photo.preview_width && row.preview_height == photo.preview_height
                    && opt_text(row.cache_revision) == opt_text(photo.cache_revision)
                &&& !made ==> row.preview_state@ == "inspection-pending"@
                    && row.preview_source_revision is None && row.preview_width is None
                    && row.preview_height is None && row.cache_revision is None
            },
{
    law_split_keeps_photos(photos, paired_photo_ids(photos), originals, members, fresh, i);
    let ids = paired_ids(originals);
    assert(ids[k] == originals[k].id@);
    assert forall|j: int| k < j < ids.len() implies ids[j] != ids[k] by {
        assert(ids[j] == originals[j].id@);
    }
    lemma_last_index(ids, ids[k], k);
    let view = kept_row(photos[i], originals[k]);
    let all = split_view(rows);
    assert(all.contains(view));
    let r = choose|r: int| 0 <= r < all.len() && all[r] == view;
    assert(all[r] == rows[r]@);
    assert(rows[r].id@ == photos[i].id@);
}

/// The JPEG file of a pair gets a Photo of its own, about which nothing is decided, at
/// its own path, to be inspected.
pub proof fn law_split_pairs_give_a_new_photo(
    photos: Seq<PairedPhotoRow>,
    originals: Seq<PairedOriginal>,
    members: Seq<Seq<char>>,
    fresh: Seq<Seq<char>>,
    rows: Seq<SplitPhotoRow>,
    i: int,
    k: int,
)
    requires
        split_all(photos, paired_photo_ids(photos), originals, members, fresh) is Ok,
        split_all(photos, paired_photo_ids(photos), originals, members, fresh)->Ok_0.rows
            == split_view(rows),
        0 <= i < photos.len(),
        0 <= k < originals.len(),
        photos[i].raw_original_id is Some,
        photos[i].jpeg_original_id is Some,
        originals[k].id@ == photos[i].jpeg_original_id->0@,
        forall|a: int, b: int|
            0 <= a < b < originals.len() ==> (#[trigger] originals[a]).id@ != (
            #[trigger] originals[b]).id@,
    ensures
        exists|r: int|
            0 <= r < rows.len() && {
                let row = #[trigger] rows[r];
                &&& row.original_id@ == originals[k].id@
                &&& row.available == originals[k].available
                &&& row.sort_path@ == originals[k].relative_path@
                &&& row.selection_state@ == "undecided"@
                &&& row.rating == 0
                &&& row.preview_state@ == "inspection-pending"@
                &&& row.preview_source_revision is None
                &&& row.preview_width is None
                &&& row.preview_height is None
                &&& row.cache_revision is None
            },
{
    law_split_keeps_photos(photos, paired_photo_ids(photos), originals, members, fresh, i);
    let ids = paired_ids(originals);
    assert(ids[k] == originals[k].id@);
    assert forall|j: int| k < j < ids.len() implies ids[j] != ids[k] by {
        assert(ids[j] == originals[j].id@);
    }
    lemma_last_index(ids, ids[k], k);
    let all = split_view(rows);
    let id = choose|id: Seq<char>| all.contains(#[trigger] new_row(id, originals[k]));
    let r = choose|r: int| 0 <= r < all.len() && all[r] == new_row(id, originals[k]);
    assert(all[r] == rows[r]@);
    assert(rows[r].original_id@ == originals[k].id@);
}

/// A paired Original File is read as stored.
pub proof fn law_paired_originals_are_read_as_stored(row: PairedOriginalRow)
    requires
        kind_of(row.kind@) is Some,
    ensures
        read_paired(row).id@ == row.id@,
        read_paired(row).available <==> row.available != 0,
        read_paired(row).relative_path@ == row.relative_path@,
        read_paired(row).kind == OriginalKind::Raw <==> row.kind@ == "raw"@,
        read_paired(row).kind == OriginalKind::Jpeg <==> row.kind@ == "jpeg"@,
        opt_text(read_paired(row).revision) == opt_text(row.revision),
{
    law_kinds_are_stored_by_name(row.kind@);
}

/// A Preview still shows its file only where both revisions are told and are the same.
pub proof fn law_revisions_match_where_told(
    stored: Option<String>,
    current: Option<String>,
    answer: bool,
    swapped: bool,
)
    requires
        call_ensures(revision_matches, (&stored, &current), answer),
        call_ensures(revision_matches, (&current, &stored), swapped),
    ensures
        answer == swapped,
        stored is None || current is None ==> !answer,
        stored matches Some(a) ==> (current matches Some(b) ==> (answer <==> a@ == b@)),
{
}

} // verus!
