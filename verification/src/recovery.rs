//! Fingerprints of Original Files, Previews that were made of them, and what is
//! known of the ones that are missing.
use crate::binary::{same_real, Real};
use crate::codec::{
    kind_of, law_kinds_are_stored_by_name, parse_kind, source_of_kind, OriginalKind, PreviewSource,
    PreviewState, SelectionState,
};
use crate::error::PersistenceError;
use crate::order::{
    comes_before, law_order_is_irreflexive, law_order_is_transitive, text_less,
};
use crate::scan::{PreviewFacts, TablesView};
use crate::scan_state::{
    clone_fingerprint, fingerprint_ids, fingerprints_view, index_of_fingerprint, index_of_original,
    original_ids, originals_view, FingerprintView, OriginalFingerprint, OriginalRecord,
    OriginalView, PhotoRecord, PhotoView, ScanTables,
};
use crate::sorting::{
    key_less, keys_view, law_sorting_orders_every_row, rows_view, sort_order, sorted_rows,
    texts_less, KeyView, SortKey,
};
use crate::text::{
    clone_opt_text, contains_text, last_index, lemma_last_index, lemma_last_index_found, lemma_texts_push,
    length_before_nul, opt_text, same_text, stored_length, texts,
};
use vstd::prelude::*;
use vstd::string::*;

verus! {

/// The stored fingerprints of the given Original Files, in the order given.
pub open spec fn facts_of(rows: Seq<FingerprintView>, ids: Seq<Seq<char>>) -> Seq<FingerprintView>
    decreases ids.len(),
{
    if ids.len() == 0 {
        Seq::empty()
    } else {
        let before = facts_of(rows, ids.drop_last());
        match last_index(fingerprint_ids(rows), ids.last()) {
            Some(k) => before.push(rows[k]),
            None => before,
        }
    }
}

/// The stored fingerprints of the given Original Files; those without one are
/// left out.
pub fn recovery_facts(rows: &Vec<OriginalFingerprint>, ids: &Vec<String>) -> (facts: Vec<
    OriginalFingerprint,
>)
    ensures
        fingerprints_view(facts@) == facts_of(fingerprints_view(rows@), texts(ids@)),
{
    let ghost all = texts(ids@);
    let ghost views = fingerprints_view(rows@);
    let mut facts: Vec<OriginalFingerprint> = Vec::new();
    let mut i: usize = 0;
    assert(all.take(0) =~= Seq::<Seq<char>>::empty());
    assert(fingerprints_view(facts@) =~= Seq::<FingerprintView>::empty());
    while i < ids.len()
        invariant
            i <= ids.len(),
            all == texts(ids@),
            views == fingerprints_view(rows@),
            fingerprints_view(facts@) == facts_of(views, all.take(i as int)),
        decreases ids.len() - i,
    {
        proof {
            assert(all.take(i + 1).drop_last() =~= all.take(i as int));
            assert(all.take(i + 1).last() == ids@[i as int]@);
        }
        match index_of_fingerprint(rows, &ids[i]) {
            Some(k) => {
                let row: OriginalFingerprint = clone_fingerprint(&rows[k]);
                assert(row@ == views[k as int]);
                assert(fingerprints_view(facts@.push(row)) =~= fingerprints_view(facts@).push(
                    row@,
                ));
                facts.push(row);
            },
            None => {},
        }
        i = i + 1;
    }
    assert(all.take(all.len() as int) =~= all);
    facts
}

/// Whether an Original File has a fingerprint of its stored revision.
pub open spec fn enrolled(row: OriginalView, fingerprints: Seq<FingerprintView>) -> bool {
    match last_index(fingerprint_ids(fingerprints), row.id) {
        Some(k) => fingerprints[k].size == row.size && same_real(
            fingerprints[k].mtime_ms,
            row.mtime_ms,
        ),
        None => false,
    }
}

/// Whether an Original File can be read and still needs a fingerprint.
pub open spec fn awaits_fingerprint(row: OriginalView, fingerprints: Seq<FingerprintView>) -> bool {
    row.available && row.error_category is None && !enrolled(row, fingerprints)
}

fn is_enrolled(row: &OriginalRecord, fingerprints: &Vec<OriginalFingerprint>) -> (answer: bool)
    ensures
        answer == enrolled(row@, fingerprints_view(fingerprints@)),
{
    match index_of_fingerprint(fingerprints, &row.id) {
        Some(k) => {
            assert(fingerprints_view(fingerprints@)[k as int] == fingerprints@[k as int]@);
            fingerprints[k].size == row.size && fingerprints[k].mtime_ms.same(row.mtime_ms)
        },
        None => false,
    }
}

/// An Original File whose stored revision needs a fingerprint.
#[derive(Clone, Debug, PartialEq, Eq)]
pub struct FingerprintTarget {
    pub original_id: String,
    pub relative_path: String,
    pub kind: OriginalKind,
    pub size: u64,
    pub mtime_ms: Real,
}

/// Whether a target is made of the row of an Original File.
pub open spec fn targets(target: FingerprintTarget, row: OriginalView) -> bool {
    target.original_id@ == row.id && target.relative_path@ == row.relative_path && target.kind
        == row.kind && target.size == row.size && target.mtime_ms == row.mtime_ms
}

/// Whether a target is the first Original File by path that awaits a fingerprint.
pub open spec fn target_chosen(
    rows: Seq<OriginalView>,
    known: Seq<FingerprintView>,
    target: Option<FingerprintTarget>,
) -> bool {
    match target {
        None => forall|i: int|
            0 <= i < rows.len() ==> !awaits_fingerprint(#[trigger] rows[i], known),
        Some(found) => exists|i: int|
            0 <= i < rows.len() && awaits_fingerprint(#[trigger] rows[i], known) && targets(
                found,
                rows[i],
            ) && forall|j: int|
                0 <= j < rows.len() && awaits_fingerprint(#[trigger] rows[j], known)
                    ==> !text_less(rows[j].relative_path, rows[i].relative_path),
    }
}

/// The next Original File to compute a fingerprint of: the first by Location
/// that can be read and needs one.
pub fn next_fingerprint_target(
    originals: &Vec<OriginalRecord>,
    fingerprints: &Vec<OriginalFingerprint>,
) -> (target: Option<FingerprintTarget>)
    ensures
        target_chosen(originals_view(originals@), fingerprints_view(fingerprints@), target),
{
    let ghost rows = originals_view(originals@);
    let ghost known = fingerprints_view(fingerprints@);
    let mut best: Option<usize> = None;
    let mut i: usize = 0;
    while i < originals.len()
        invariant
            i <= originals.len(),
            rows == originals_view(originals@),
            known == fingerprints_view(fingerprints@),
            match best {
                None => forall|j: int|
                    0 <= j < i ==> !awaits_fingerprint(#[trigger] rows[j], known),
                Some(b) => b < i && awaits_fingerprint(rows[b as int], known) && forall|j: int|
                    0 <= j < i && awaits_fingerprint(#[trigger] rows[j], known) ==> !text_less(
                        rows[j].relative_path,
                        rows[b as int].relative_path,
                    ),
            },
        decreases originals.len() - i,
    {
        assert(rows[i as int] == originals@[i as int]@);
        if originals[i].available && originals[i].error_category.is_none() && !is_enrolled(
            &originals[i],
            fingerprints,
        ) {
            match best {
                None => {
                    proof {
                        crate::order::law_order_is_irreflexive(rows[i as int].relative_path);
                    }
                    best = Some(i);
                },
                Some(b) => {
                    assert(rows[b as int] == originals@[b as int]@);
                    if comes_before(&originals[i].relative_path, &originals[b].relative_path) {
                        proof {
                            let new = rows[i as int].relative_path;
                            let old_best = rows[b as int].relative_path;
                            crate::order::law_order_is_irreflexive(new);
                            assert forall|j: int|
                                0 <= j < i + 1 && awaits_fingerprint(
                                    #[trigger] rows[j],
                                    known,
                                ) implies !text_less(rows[j].relative_path, new) by {
                                if j < i && text_less(rows[j].relative_path, new) {
                                    law_order_is_transitive(
                                        rows[j].relative_path,
                                        new,
                                        old_best,
                                    );
                                }
                            }
                        }
                        best = Some(i);
                    }
                },
            }
        }
        i = i + 1;
    }
    match best {
        Some(b) => {
            assert(rows[b as int] == originals@[b as int]@);
            Some(
                FingerprintTarget {
                    original_id: originals[b].id.clone(),
                    relative_path: originals[b].relative_path.clone(),
                    kind: originals[b].kind,
                    size: originals[b].size,
                    mtime_ms: originals[b].mtime_ms,
                },
            )
        },
        None => None,
    }
}

/// The fingerprints once a computed one is stored, or why it is not: it must be
/// of the stored revision of an Original File that can be read and has none yet.
pub open spec fn enrolled_with(
    fingerprints: Seq<FingerprintView>,
    originals: Seq<OriginalView>,
    fingerprint: FingerprintView,
) -> Result<Seq<FingerprintView>, PersistenceError> {
    let place = last_index(original_ids(originals), fingerprint.original_id);
    if fingerprint.size > i64::MAX {
        Err(PersistenceError::Storage)
    } else if place is None || !originals[place->0].available || originals[place->0].error_category
        is Some || originals[place->0].size != fingerprint.size || !same_real(
        originals[place->0].mtime_ms,
        fingerprint.mtime_ms,
    ) {
        Err(PersistenceError::InvalidRecovery)
    } else if stored_length(fingerprint.digest) != 64 || fingerprint_ids(fingerprints).contains(
        fingerprint.original_id,
    ) {
        Err(PersistenceError::Storage)
    } else {
        Ok(fingerprints.push(fingerprint))
    }
}

/// Stores a computed fingerprint.
pub fn store_fingerprint(
    fingerprints: &mut Vec<OriginalFingerprint>,
    originals: &Vec<OriginalRecord>,
    fingerprint: OriginalFingerprint,
) -> (result: Result<(), PersistenceError>)
    ensures
        match enrolled_with(
            fingerprints_view(old(fingerprints)@),
            originals_view(originals@),
            fingerprint@,
        ) {
            Ok(after) => result is Ok && fingerprints_view(final(fingerprints)@) == after,
            Err(error) => result == Err::<(), PersistenceError>(error) && final(fingerprints)@
                == old(fingerprints)@,
        },
{
    let ghost before = fingerprints_view(fingerprints@);
    if fingerprint.size > i64::MAX as u64 {
        return Err(PersistenceError::Storage);
    }
    match index_of_original(originals, &fingerprint.original_id) {
        Some(k) => {
            assert(originals_view(originals@)[k as int] == originals@[k as int]@);
            if !originals[k].available || originals[k].error_category.is_some() || originals[k].size
                != fingerprint.size || !originals[k].mtime_ms.same(fingerprint.mtime_ms) {
                return Err(PersistenceError::InvalidRecovery);
            }
        },
        None => {
            return Err(PersistenceError::InvalidRecovery);
        },
    }
    proof {
        lemma_last_index_found(fingerprint_ids(before), fingerprint.original_id@);
    }
    if length_before_nul(&fingerprint.digest) != 64 || index_of_fingerprint(
        fingerprints,
        &fingerprint.original_id,
    ).is_some() {
        return Err(PersistenceError::Storage);
    }
    assert(fingerprints_view(fingerprints@.push(fingerprint)) =~= before.push(fingerprint@));
    fingerprints.push(fingerprint);
    Ok(())
}

/// How many Original Files have a fingerprint of their stored revision, and how
/// many still need one.
#[derive(Clone, Copy, Debug, PartialEq, Eq, Structural)]
pub struct FingerprintCounts {
    pub enrolled: usize,
    pub pending: usize,
}

/// How many Original Files have a fingerprint of their stored revision.
pub open spec fn enrolled_count(
    rows: Seq<OriginalView>,
    fingerprints: Seq<FingerprintView>,
) -> nat
    decreases rows.len(),
{
    if rows.len() == 0 {
        0
    } else {
        enrolled_count(rows.drop_last(), fingerprints) + if enrolled(rows.last(), fingerprints) {
            1nat
        } else {
            0nat
        }
    }
}

/// How many Original Files still need a fingerprint.
pub open spec fn pending_count(rows: Seq<OriginalView>, fingerprints: Seq<FingerprintView>) -> nat
    decreases rows.len(),
{
    if rows.len() == 0 {
        0
    } else {
        pending_count(rows.drop_last(), fingerprints) + if awaits_fingerprint(
            rows.last(),
            fingerprints,
        ) {
            1nat
        } else {
            0nat
        }
    }
}

/// Counts the Original Files by whether they have a fingerprint.
pub fn fingerprint_counts(
    originals: &Vec<OriginalRecord>,
    fingerprints: &Vec<OriginalFingerprint>,
) -> (counts: FingerprintCounts)
    ensures
        counts.enrolled == enrolled_count(
            originals_view(originals@),
            fingerprints_view(fingerprints@),
        ),
        counts.pending == pending_count(
            originals_view(originals@),
            fingerprints_view(fingerprints@),
        ),
{
    let ghost all = originals_view(originals@);
    let ghost known = fingerprints_view(fingerprints@);
    let mut enrolled: usize = 0;
    let mut pending: usize = 0;
    let mut i: usize = 0;
    assert(all.take(0) =~= Seq::<OriginalView>::empty());
    while i < originals.len()
        invariant
            i <= originals.len(),
            all == originals_view(originals@),
            known == fingerprints_view(fingerprints@),
            enrolled <= i,
            pending <= i,
            enrolled == enrolled_count(all.take(i as int), known),
            pending == pending_count(all.take(i as int), known),
        decreases originals.len() - i,
    {
        proof {
            assert(all.take(i + 1).drop_last() =~= all.take(i as int));
            assert(all.take(i + 1).last() == originals@[i as int]@);
        }
        if is_enrolled(&originals[i], fingerprints) {
            enrolled = enrolled + 1;
        } else if originals[i].available && originals[i].error_category.is_none() {
            pending = pending + 1;
        }
        i = i + 1;
    }
    assert(all.take(all.len() as int) =~= all);
    FingerprintCounts { enrolled, pending }
}

/// No work is left exactly when nothing is pending.
pub proof fn law_no_target_means_nothing_pending(
    rows: Seq<OriginalView>,
    fingerprints: Seq<FingerprintView>,
)
    ensures
        pending_count(rows, fingerprints) == 0 <==> forall|i: int|
            0 <= i < rows.len() ==> !awaits_fingerprint(#[trigger] rows[i], fingerprints),
    decreases rows.len(),
{
    if rows.len() > 0 {
        let front = rows.drop_last();
        law_no_target_means_nothing_pending(front, fingerprints);
        if pending_count(rows, fingerprints) == 0 {
            assert forall|i: int| 0 <= i < rows.len() implies !awaits_fingerprint(
                #[trigger] rows[i],
                fingerprints,
            ) by {
                if i < front.len() {
                    assert(front[i] == rows[i]);
                }
            }
        } else if forall|i: int|
            0 <= i < rows.len() ==> !awaits_fingerprint(#[trigger] rows[i], fingerprints) {
            assert forall|i: int| 0 <= i < front.len() implies !awaits_fingerprint(
                #[trigger] front[i],
                fingerprints,
            ) by {
                assert(front[i] == rows[i]);
            }
            assert(!awaits_fingerprint(rows[rows.len() - 1], fingerprints));
        }
    }
}

/// A Preview that was made of a source in one revision.
#[derive(Clone, Debug, PartialEq, Eq)]
pub struct PreviewSeed {
    pub photo_id: String,
    pub state: PreviewState,
    pub source: PreviewSource,
    pub expected_source_revision: String,
    pub width: Option<u32>,
    pub height: Option<u32>,
    pub cache_revision: Option<String>,
}

/// What became of a Preview that was offered.
#[derive(Clone, Copy, Debug, PartialEq, Eq, Structural)]
pub enum PreviewSeedResult {
    Applied,
    StaleIgnored,
}

/// The columns of the Original File of a Photo, and its revision where one can
/// be told.
#[derive(Clone, Debug, PartialEq, Eq)]
pub struct SeedFacts {
    pub kind: String,
    pub size: i64,
    pub revision: Option<String>,
}

/// Whether a Preview describes the source as it is stored now.
pub open spec fn seed_is_current(facts: Option<SeedFacts>, seed: PreviewSeed) -> bool {
    match facts {
        None => false,
        Some(facts) => facts.size >= 0 && kind_of(facts.kind@) is Some && source_of_kind(
            kind_of(facts.kind@)->0,
        ) == seed.source && opt_text(facts.revision) == Some(seed.expected_source_revision@),
    }
}

/// Whether the database takes the dimensions of a Preview.
pub open spec fn dimensions_stored(seed: PreviewSeed) -> bool {
    seed.width != Some(0u32) && seed.height != Some(0u32)
}

/// What becomes of a Preview that was made.
pub open spec fn seeded(facts: Option<SeedFacts>, seed: PreviewSeed) -> Result<
    (PreviewSeedResult, Option<PreviewFacts>),
    PersistenceError,
> {
    if !seed_is_current(facts, seed) {
        Ok((PreviewSeedResult::StaleIgnored, None))
    } else if !dimensions_stored(seed) {
        Err(PersistenceError::Storage)
    } else {
        Ok(
            (
                PreviewSeedResult::Applied,
                Some(
                    PreviewFacts {
                        state: seed.state,
                        source_revision: facts->0.revision,
                        width: seed.width,
                        height: seed.height,
                        cache_revision: seed.cache_revision,
                    },
                ),
            ),
        )
    }
}

/// Decides what is stored of a Preview that was offered: nothing unless it
/// describes the source as it is stored now.
pub fn seed_preview(facts: &Option<SeedFacts>, seed: &PreviewSeed) -> (result: Result<
    (PreviewSeedResult, Option<PreviewFacts>),
    PersistenceError,
>)
    ensures
        result == seeded(*facts, *seed),
{
    let current: &SeedFacts = match facts {
        Some(current) => current,
        None => {
            return Ok((PreviewSeedResult::StaleIgnored, None));
        },
    };
    if current.size < 0 {
        return Ok((PreviewSeedResult::StaleIgnored, None));
    }
    let fits: bool = match parse_kind(&current.kind) {
        Some(kind) => kind.preview_source() == seed.source,
        None => false,
    };
    let same: bool = match &current.revision {
        Some(revision) => same_text(revision, &seed.expected_source_revision),
        None => false,
    };
    if !fits || !same {
        return Ok((PreviewSeedResult::StaleIgnored, None));
    }
    let no_width: bool = match seed.width {
        Some(width) => width == 0,
        None => false,
    };
    let no_height: bool = match seed.height {
        Some(height) => height == 0,
        None => false,
    };
    if no_width || no_height {
        return Err(PersistenceError::Storage);
    }
    Ok(
        (
            PreviewSeedResult::Applied,
            Some(
                PreviewFacts {
                    state: seed.state,
                    source_revision: clone_opt_text(&current.revision),
                    width: seed.width,
                    height: seed.height,
                    cache_revision: clone_opt_text(&seed.cache_revision),
                },
            ),
        ),
    )
}

/// A Photo whose Original File is missing.
#[derive(Clone, Debug, PartialEq, Eq)]
pub struct UnavailablePhotoRecord {
    pub original_id: String,
    pub relative_path: String,
    pub kind: OriginalKind,
    pub photo_id: String,
    pub rating: u8,
    pub selection_state: SelectionState,
    pub fingerprint: Option<String>,
    pub album_count: u64,
}

/// What an [`UnavailablePhotoRecord`] stands for.
pub struct UnavailableView {
    pub original_id: Seq<char>,
    pub relative_path: Seq<char>,
    pub kind: OriginalKind,
    pub photo_id: Seq<char>,
    pub rating: u8,
    pub selection_state: SelectionState,
    pub fingerprint: Option<Seq<char>>,
    pub album_count: nat,
}

impl View for UnavailablePhotoRecord {
    type V = UnavailableView;

    open spec fn view(&self) -> UnavailableView {
        UnavailableView {
            original_id: self.original_id@,
            relative_path: self.relative_path@,
            kind: self.kind,
            photo_id: self.photo_id@,
            rating: self.rating,
            selection_state: self.selection_state,
            fingerprint: opt_text(self.fingerprint),
            album_count: self.album_count as nat,
        }
    }
}

/// What a list of Photos whose Original Files are missing stands for.
pub open spec fn unavailable_view(rows: Seq<UnavailablePhotoRecord>) -> Seq<UnavailableView> {
    Seq::new(rows.len(), |i: int| rows[i]@)
}

/// How often a text stands in a list.
pub open spec fn occurrences(list: Seq<Seq<char>>, text: Seq<char>) -> nat
    decreases list.len(),
{
    if list.len() == 0 {
        0
    } else {
        occurrences(list.drop_last(), text) + if list.last() == text {
            1nat
        } else {
            0nat
        }
    }
}

fn count_occurrences(list: &Vec<String>, text: &String) -> (count: u64)
    ensures
        count == occurrences(texts(list@), text@),
{
    let ghost all = texts(list@);
    let mut count: u64 = 0;
    let mut i: usize = 0;
    assert(all.take(0) =~= Seq::<Seq<char>>::empty());
    while i < list.len()
        invariant
            i <= list.len(),
            all == texts(list@),
            count <= i,
            count == occurrences(all.take(i as int), text@),
        decreases list.len() - i,
    {
        proof {
            assert(all.take(i + 1).drop_last() =~= all.take(i as int));
            assert(all.take(i + 1).last() == list@[i as int]@);
        }
        if same_text(&list[i], text) {
            count = count + 1;
        }
        i = i + 1;
    }
    assert(all.take(all.len() as int) =~= all);
    count
}

/// What is told of a Photo whose Original File is missing.
pub open spec fn unavailable_row(
    photo: PhotoView,
    tables: TablesView,
    members: Seq<Seq<char>>,
) -> UnavailableView {
    let original = tables.originals[last_index(
        original_ids(tables.originals),
        photo.original_id,
    )->0];
    UnavailableView {
        original_id: original.id,
        relative_path: original.relative_path,
        kind: original.kind,
        photo_id: photo.id,
        rating: photo.rating,
        selection_state: photo.selection_state,
        fingerprint: match last_index(fingerprint_ids(tables.fingerprints), original.id) {
            Some(k) => Some(tables.fingerprints[k].digest),
            None => None,
        },
        album_count: occurrences(members, photo.id),
    }
}

/// Whether a Photo is missing its Original File and not removed.
pub open spec fn surveyed(photo: PhotoView, tables: TablesView) -> bool {
    !photo.available && !photo.removed && last_index(
        original_ids(tables.originals),
        photo.original_id,
    ) is Some
}

/// The Photos whose Original Files are missing, in the order of their rows.
pub open spec fn unavailable_rows(
    photos: Seq<PhotoView>,
    tables: TablesView,
    members: Seq<Seq<char>>,
) -> Seq<UnavailableView>
    decreases photos.len(),
{
    if photos.len() == 0 {
        Seq::empty()
    } else {
        let before = unavailable_rows(photos.drop_last(), tables, members);
        if surveyed(photos.last(), tables) {
            before.push(unavailable_row(photos.last(), tables, members))
        } else {
            before
        }
    }
}

/// The keys that Photos whose Original Files are missing are ordered by.
pub open spec fn unavailable_keys(rows: Seq<UnavailableView>) -> Seq<KeyView> {
    Seq::new(rows.len(), |i: int| KeyView { rank: 0, texts: seq![rows[i].relative_path] })
}

/// Missing Photos by the paths of their Original Files.
pub open spec fn by_path(rows: Seq<UnavailableView>) -> Seq<UnavailableView> {
    Seq::new(rows.len(), |i: int| rows[sort_order(unavailable_keys(rows), rows.len())[i]])
}

/// What can be told for the recovery of missing Original Files.
#[derive(Clone, Debug, PartialEq, Eq)]
pub struct RecoverySurvey {
    pub unavailable: Vec<UnavailablePhotoRecord>,
    pub referenced_photo_ids: Vec<String>,
}

fn survey_rows(tables: &ScanTables, members: &Vec<String>) -> (rows: Vec<UnavailablePhotoRecord>)
    ensures
        unavailable_view(rows@) == unavailable_rows(tables@.photos, tables@, texts(members@)),
{
    let ghost all = tables@.photos;
    let mut rows: Vec<UnavailablePhotoRecord> = Vec::new();
    let mut i: usize = 0;
    assert(all.take(0) =~= Seq::<PhotoView>::empty());
    assert(unavailable_view(rows@) =~= Seq::<UnavailableView>::empty());
    while i < tables.photos.len()
        invariant
            i <= tables.photos.len(),
            all == tables@.photos,
            unavailable_view(rows@) == unavailable_rows(
                all.take(i as int),
                tables@,
                texts(members@),
            ),
        decreases tables.photos.len() - i,
    {
        let photo: &PhotoRecord = &tables.photos[i];
        proof {
            assert(all.take(i + 1).drop_last() =~= all.take(i as int));
            assert(all.take(i + 1).last() == photo@);
        }
        let place: Option<usize> = index_of_original(&tables.originals, &photo.original_id);
        match place {
            Some(o) => {
                if !photo.available && !photo.removed {
                    let original: &OriginalRecord = &tables.originals[o];
                    assert(tables@.originals[o as int] == original@);
                    let fingerprint: Option<String> = match index_of_fingerprint(
                        &tables.fingerprints,
                        &original.id,
                    ) {
                        Some(f) => {
                            assert(tables@.fingerprints[f as int]
                                == tables.fingerprints@[f as int]@);
                            Some(tables.fingerprints[f].digest.clone())
                        },
                        None => None,
                    };
                    let row: UnavailablePhotoRecord = UnavailablePhotoRecord {
                        original_id: original.id.clone(),
                        relative_path: original.relative_path.clone(),
                        kind: original.kind,
                        photo_id: photo.id.clone(),
                        rating: photo.rating,
                        selection_state: photo.selection_state,
                        fingerprint,
                        album_count: count_occurrences(members, &photo.id),
                    };
                    proof {
                        assert(row@ == unavailable_row(photo@, tables@, texts(members@)));
                        assert(unavailable_view(rows@.push(row)) =~= unavailable_view(rows@).push(
                            row@,
                        ));
                    }
                    rows.push(row);
                }
            },
            None => {},
        }
        i = i + 1;
    }
    assert(all.take(all.len() as int) =~= all);
    rows
}

fn clone_unavailable(row: &UnavailablePhotoRecord) -> (copy: UnavailablePhotoRecord)
    ensures
        copy == *row,
{
    UnavailablePhotoRecord {
        original_id: row.original_id.clone(),
        relative_path: row.relative_path.clone(),
        kind: row.kind,
        photo_id: row.photo_id.clone(),
        rating: row.rating,
        selection_state: row.selection_state,
        fingerprint: clone_opt_text(&row.fingerprint),
        album_count: row.album_count,
    }
}

fn collect_distinct(into: &mut Vec<String>, list: &Vec<String>)
    requires
        texts(old(into)@).no_duplicates(),
    ensures
        texts(final(into)@).no_duplicates(),
        forall|x: Seq<char>| #[trigger]
            texts(final(into)@).contains(x) <==> texts(old(into)@).contains(x) || texts(
                list@,
            ).contains(x),
{
    let ghost start = texts(into@);
    let ghost all = texts(list@);
    let mut i: usize = 0;
    assert(all.take(0) =~= Seq::<Seq<char>>::empty());
    while i < list.len()
        invariant
            i <= list.len(),
            all == texts(list@),
            start == texts(old(into)@),
            texts(into@).no_duplicates(),
            forall|x: Seq<char>| #[trigger]
                texts(into@).contains(x) <==> start.contains(x) || all.take(i as int).contains(x),
        decreases list.len() - i,
    {
        let ghost before = texts(into@);
        let ghost item = list@[i as int]@;
        proof {
            assert(all.take(i + 1) =~= all.take(i as int).push(item));
            assert forall|x: Seq<char>| #[trigger]
                all.take(i + 1).contains(x) <==> all.take(i as int).contains(x) || x == item by {
                if all.take(i as int).contains(x) {
                    let k = choose|k: int| 0 <= k < i && all.take(i as int)[k] == x;
                    assert(all.take(i + 1)[k] == x);
                }
                if x == item {
                    assert(all.take(i + 1)[i as int] == x);
                }
            }
        }
        if !contains_text(into, &list[i]) {
            let copy: String = list[i].clone();
            proof {
                lemma_texts_push(into@, copy);
                assert forall|x: Seq<char>| #[trigger]
                    before.push(item).contains(x) <==> before.contains(x) || x == item by {
                    if before.contains(x) {
                        let k = choose|k: int| 0 <= k < before.len() && before[k] == x;
                        assert(before.push(item)[k] == x);
                    }
                    if x == item {
                        assert(before.push(item)[before.len() as int] == x);
                    }
                }
                assert forall|a: int, b: int|
                    0 <= a < before.len() + 1 && 0 <= b < before.len() + 1 && a != b implies
                    before.push(item)[a] != before.push(item)[b] by {
                    if a < before.len() && b < before.len() {
                    } else if a < before.len() {
                        assert(before.contains(before[a]));
                    } else {
                        assert(before.contains(before[b]));
                    }
                }
            }
            into.push(copy);
        }
        i = i + 1;
    }
    assert(all.take(all.len() as int) =~= all);
}

/// One consistent reading for the recovery of missing Original Files: the Photos
/// that miss theirs, by Location, and which Photos an Album or saved edits refer
/// to. `members` are the Photos of all Album memberships, `edited` those with
/// saved edits.
pub fn recovery_survey(
    tables: &ScanTables,
    members: &Vec<String>,
    edited: &Vec<String>,
) -> (survey: RecoverySurvey)
    ensures
        unavailable_view(survey.unavailable@) == by_path(
            unavailable_rows(tables@.photos, tables@, texts(members@)),
        ),
        texts(survey.referenced_photo_ids@).no_duplicates(),
        forall|x: Seq<char>| #[trigger]
            texts(survey.referenced_photo_ids@).contains(x) <==> texts(members@).contains(x)
                || texts(edited@).contains(x),
{
    let rows: Vec<UnavailablePhotoRecord> = survey_rows(tables, members);
    let ghost views = unavailable_view(rows@);
    let ghost all = unavailable_keys(views);
    let mut keys: Vec<SortKey> = Vec::new();
    let mut i: usize = 0;
    while i < rows.len()
        invariant
            i <= rows.len(),
            views == unavailable_view(rows@),
            all == unavailable_keys(views),
            keys_view(keys@) == all.take(i as int),
        decreases rows.len() - i,
    {
        let key: SortKey = SortKey { rank: 0, texts: vec![rows[i].relative_path.clone()] };
        proof {
            assert(key@.texts =~= seq![views[i as int].relative_path]);
            assert(keys_view(keys@.push(key)) =~= keys_view(keys@).push(key@));
            assert(all.take(i + 1) =~= all.take(i as int).push(all[i as int]));
        }
        keys.push(key);
        i = i + 1;
    }
    assert(all.take(all.len() as int) =~= all);
    assert(keys.len() == keys_view(keys@).len());
    let order: Vec<usize> = sorted_rows(&keys);
    let ghost goal = Seq::new(
        views.len(),
        |i: int| views[sort_order(unavailable_keys(views), views.len())[i]],
    );
    let mut unavailable: Vec<UnavailablePhotoRecord> = Vec::new();
    let mut j: usize = 0;
    while j < order.len()
        invariant
            j <= order.len(),
            order.len() == rows.len(),
            views == unavailable_view(rows@),
            goal == Seq::new(
                views.len(),
                |i: int| views[sort_order(unavailable_keys(views), views.len())[i]],
            ),
            rows_view(order@) == sort_order(unavailable_keys(views), views.len()),
            forall|k: int| 0 <= k < order.len() ==> (#[trigger] order@[k]) < rows.len(),
            unavailable_view(unavailable@) == goal.take(j as int),
        decreases order.len() - j,
    {
        let row: UnavailablePhotoRecord = clone_unavailable(&rows[order[j]]);
        proof {
            assert(rows_view(order@)[j as int] == order@[j as int]);
            assert(row@ == goal[j as int]);
            assert(unavailable_view(unavailable@.push(row)) =~= unavailable_view(
                unavailable@,
            ).push(row@));
            assert(goal.take(j + 1) =~= goal.take(j as int).push(goal[j as int]));
        }
        unavailable.push(row);
        j = j + 1;
    }
    assert(goal.take(goal.len() as int) =~= goal);
    let mut referenced: Vec<String> = Vec::new();
    assert(texts(referenced@) =~= Seq::<Seq<char>>::empty());
    collect_distinct(&mut referenced, members);
    collect_distinct(&mut referenced, edited);
    RecoverySurvey { unavailable, referenced_photo_ids: referenced }
}

/// Whether two stored times are the same: neither is no number, and their bits are the
/// same or both are zero.
pub open spec fn same_time(left: Real, right: Real) -> bool {
    &&& left.bits % 0x8000_0000_0000_0000 <= 0x7ff0_0000_0000_0000
    &&& right.bits % 0x8000_0000_0000_0000 <= 0x7ff0_0000_0000_0000
    &&& left.bits == right.bits || (left.bits % 0x8000_0000_0000_0000 == 0 && right.bits
        % 0x8000_0000_0000_0000 == 0)
}

proof fn lemma_print_found(fingerprints: Seq<OriginalFingerprint>, k: int)
    requires
        0 <= k < fingerprints.len(),
        forall|a: int, b: int|
            0 <= a < b < fingerprints.len() ==> (#[trigger] fingerprints[a]).original_id@ != (
            #[trigger] fingerprints[b]).original_id@,
    ensures
        last_index(
            fingerprint_ids(fingerprints_view(fingerprints)),
            fingerprints[k].original_id@,
        ) == Some(k),
        fingerprints_view(fingerprints)[k] == fingerprints[k]@,
{
    let ids = fingerprint_ids(fingerprints_view(fingerprints));
    assert(ids[k] == fingerprints[k].original_id@);
    assert forall|j: int| k < j < ids.len() implies ids[j] != ids[k] by {
        assert(ids[j] == fingerprints[j].original_id@);
    }
    lemma_last_index(ids, ids[k], k);
}

/// An Original File awaits its fingerprint where it is available, nothing is wrong with
/// it, and no fingerprint is stored for it at its size and time.
pub proof fn law_originals_await_fingerprints(
    original: OriginalRecord,
    fingerprints: Seq<OriginalFingerprint>,
)
    requires
        forall|a: int, b: int|
            0 <= a < b < fingerprints.len() ==> (#[trigger] fingerprints[a]).original_id@ != (
            #[trigger] fingerprints[b]).original_id@,
    ensures
        ({
            let stored = exists|k: int|
                0 <= k < fingerprints.len() && (#[trigger] fingerprints[k]).original_id@
                    == original.id@ && fingerprints[k].size == original.size && same_time(
                    fingerprints[k].mtime_ms,
                    original.mtime_ms,
                );
            &&& enrolled(original@, fingerprints_view(fingerprints)) <==> stored
            &&& awaits_fingerprint(original@, fingerprints_view(fingerprints))
                <==> original.available && original.error_category is None && !stored
        }),
{
    let prints = fingerprints_view(fingerprints);
    let ids = fingerprint_ids(prints);
    lemma_last_index_found(ids, original.id@);
    if exists|k: int|
        0 <= k < fingerprints.len() && (#[trigger] fingerprints[k]).original_id@ == original.id@
            && fingerprints[k].size == original.size && same_time(
            fingerprints[k].mtime_ms,
            original.mtime_ms,
        ) {
        let k = choose|k: int|
            0 <= k < fingerprints.len() && (#[trigger] fingerprints[k]).original_id@
                == original.id@ && fingerprints[k].size == original.size && same_time(
                fingerprints[k].mtime_ms,
                original.mtime_ms,
            );
        lemma_print_found(fingerprints, k);
    }
    if enrolled(original@, prints) {
        let k = last_index(ids, original.id@)->0;
        assert(ids[k] == fingerprints[k].original_id@);
        assert(prints[k] == fingerprints[k]@);
        assert(fingerprints[k].original_id@ == original.id@);
    }
}

/// The next fingerprint to take is of the first Original File by path that awaits one,
/// and is told with its path, kind, size and time.
pub proof fn law_next_targets_come_by_path(
    originals: Seq<OriginalRecord>,
    fingerprints: Seq<OriginalFingerprint>,
    target: Option<FingerprintTarget>,
    j: int,
)
    requires
        target_chosen(originals_view(originals), fingerprints_view(fingerprints), target),
        0 <= j < originals.len(),
    ensures
        awaits_fingerprint(originals[j]@, fingerprints_view(fingerprints)) ==> target is Some
            && !text_less(originals[j].relative_path@, target->0.relative_path@),
        target is Some ==> exists|i: int|
            0 <= i < originals.len() && awaits_fingerprint(
                (#[trigger] originals[i])@,
                fingerprints_view(fingerprints),
            ) && target->0.original_id@ == originals[i].id@ && target->0.relative_path@
                == originals[i].relative_path@ && target->0.kind == originals[i].kind
                && target->0.size == originals[i].size && target->0.mtime_ms
                == originals[i].mtime_ms,
{
    let rows = originals_view(originals);
    let known = fingerprints_view(fingerprints);
    assert(rows[j] == originals[j]@);
    if target is Some {
        let i = choose|i: int|
            0 <= i < rows.len() && awaits_fingerprint(#[trigger] rows[i], known) && targets(
                target->0,
                rows[i],
            ) && forall|j: int|
                0 <= j < rows.len() && awaits_fingerprint(#[trigger] rows[j], known) ==> !text_less(
                    rows[j].relative_path,
                    rows[i].relative_path,
                );
        assert(rows[i] == originals[i]@);
        assert(awaits_fingerprint(originals[i]@, known));
    }
}

/// A fingerprint is stored only of an Original File that is there, with nothing wrong, at
/// the size and time of the fingerprint, that has none yet. It is stored as taken, behind
/// the others, which stay. A file that is gone or changed is told as such.
pub proof fn law_fingerprints_are_stored_of_current_files(
    fingerprints: Seq<OriginalFingerprint>,
    originals: Seq<OriginalRecord>,
    fingerprint: OriginalFingerprint,
    i: int,
)
    requires
        0 <= i < originals.len(),
        originals[i].id@ == fingerprint.original_id@,
        forall|a: int, b: int|
            0 <= a < b < originals.len() ==> (#[trigger] originals[a]).id@ != (
            #[trigger] originals[b]).id@,
    ensures
        ({
            let before = fingerprints_view(fingerprints);
            let result = enrolled_with(before, originals_view(originals), fingerprint@);
            let current = originals[i].available && originals[i].error_category is None
                && originals[i].size == fingerprint.size && same_time(
                originals[i].mtime_ms,
                fingerprint.mtime_ms,
            );
            &&& fingerprint.size > i64::MAX ==> result is Err && result->Err_0
                == PersistenceError::Storage
            &&& fingerprint.size <= i64::MAX && !current ==> result is Err && result->Err_0
                == PersistenceError::InvalidRecovery
            &&& fingerprint.size <= i64::MAX && current && stored_length(fingerprint.digest@) != 64
                ==> result is Err && result->Err_0 == PersistenceError::Storage
            &&& result is Ok ==> {
                &&& current
                &&& result->Ok_0.len() == before.len() + 1
                &&& result->Ok_0.drop_last() == before
                &&& result->Ok_0.last().original_id == fingerprint.original_id@
                &&& result->Ok_0.last().digest == fingerprint.digest@
                &&& result->Ok_0.last().size == fingerprint.size
                &&& result->Ok_0.last().mtime_ms == fingerprint.mtime_ms
                &&& forall|k: int|
                    0 <= k < fingerprints.len() ==> (#[trigger] fingerprints[k]).original_id@
                        != fingerprint.original_id@
            }
            &&& fingerprint.size <= i64::MAX && current && stored_length(fingerprint.digest@) == 64
                && (forall|k: int|
                0 <= k < fingerprints.len() ==> (#[trigger] fingerprints[k]).original_id@
                    != fingerprint.original_id@) ==> result is Ok
        }),
{
    let rows = originals_view(originals);
    let ids = original_ids(rows);
    let before = fingerprints_view(fingerprints);
    let held = fingerprint_ids(before);
    assert(ids[i] == originals[i].id@);
    assert forall|j: int| i < j < ids.len() implies ids[j] != ids[i] by {
        assert(ids[j] == originals[j].id@);
    }
    lemma_last_index(ids, ids[i], i);
    assert(rows[i] == originals[i]@);
    assert(before.push(fingerprint@).drop_last() =~= before);
    assert forall|k: int| 0 <= k < fingerprints.len() implies held[k]
        == (#[trigger] fingerprints[k]).original_id@ by {}
    if held.contains(fingerprint.original_id@) {
        let k = choose|k: int| 0 <= k < held.len() && held[k] == fingerprint.original_id@;
        assert(fingerprints[k].original_id@ == fingerprint.original_id@);
    } else {
        assert forall|k: int| 0 <= k < fingerprints.len() implies (
        #[trigger] fingerprints[k]).original_id@ != fingerprint.original_id@ by {
            assert(held[k] == fingerprints[k].original_id@);
        }
    }
}

/// A fingerprint of an Original File that is not stored is refused.
pub proof fn law_fingerprints_of_unknown_files_are_refused(
    fingerprints: Seq<FingerprintView>,
    originals: Seq<OriginalRecord>,
    fingerprint: OriginalFingerprint,
)
    requires
        fingerprint.size <= i64::MAX,
        forall|i: int|
            0 <= i < originals.len() ==> (#[trigger] originals[i]).id@ != fingerprint.original_id@,
    ensures
        enrolled_with(fingerprints, originals_view(originals), fingerprint@) == Err::<
            Seq<FingerprintView>,
            PersistenceError,
        >(PersistenceError::InvalidRecovery),
{
    let ids = original_ids(originals_view(originals));
    lemma_last_index_found(ids, fingerprint.original_id@);
    if ids.contains(fingerprint.original_id@) {
        let i = choose|i: int| 0 <= i < ids.len() && ids[i] == fingerprint.original_id@;
        assert(originals[i].id@ == fingerprint.original_id@);
    }
}

/// Fingerprints are counted by the Original Files that have a current one and those that
/// await one: one Original File more adds one to the count that it belongs to.
pub proof fn law_fingerprints_are_counted(
    rows: Seq<OriginalView>,
    row: OriginalView,
    fingerprints: Seq<FingerprintView>,
)
    ensures
        enrolled_count(Seq::<OriginalView>::empty(), fingerprints) == 0,
        pending_count(Seq::<OriginalView>::empty(), fingerprints) == 0,
        enrolled_count(rows.push(row), fingerprints) - enrolled_count(rows, fingerprints) == (
        if enrolled(row, fingerprints) {
            1int
        } else {
            0
        }),
        pending_count(rows.push(row), fingerprints) - pending_count(rows, fingerprints) == (
        if row.available && row.error_category is None && !enrolled(row, fingerprints) {
            1int
        } else {
            0
        }),
{
    assert(rows.push(row).drop_last() =~= rows);
    assert(rows.push(row).last() == row);
}

/// The fingerprints of some Original Files are told in the order asked: one more that is
/// asked for comes last as it is stored, or not at all where none is stored.
pub proof fn law_fingerprints_are_told_as_asked(
    fingerprints: Seq<OriginalFingerprint>,
    ids: Seq<Seq<char>>,
    id: Seq<char>,
    k: int,
)
    requires
        forall|a: int, b: int|
            0 <= a < b < fingerprints.len() ==> (#[trigger] fingerprints[a]).original_id@ != (
            #[trigger] fingerprints[b]).original_id@,
    ensures
        ({
            let rows = fingerprints_view(fingerprints);
            let before = facts_of(rows, ids);
            let after = facts_of(rows, ids.push(id));
            &&& facts_of(rows, Seq::empty()).len() == 0
            &&& 0 <= k < fingerprints.len() && fingerprints[k].original_id@ == id ==> {
                &&& after.len() == before.len() + 1
                &&& after.drop_last() == before
                &&& after.last().original_id == id
                &&& after.last().digest == fingerprints[k].digest@
                &&& after.last().size == fingerprints[k].size
                &&& after.last().mtime_ms == fingerprints[k].mtime_ms
            }
            &&& (forall|j: int|
                0 <= j < fingerprints.len() ==> (#[trigger] fingerprints[j]).original_id@ != id)
                ==> after == before
        }),
{
    let rows = fingerprints_view(fingerprints);
    let held = fingerprint_ids(rows);
    let all = ids.push(id);
    assert(all.drop_last() =~= ids);
    assert(all.last() == id);
    let before = facts_of(rows, ids);
    lemma_last_index_found(held, id);
    if 0 <= k < fingerprints.len() && fingerprints[k].original_id@ == id {
        lemma_print_found(fingerprints, k);
        assert(before.push(rows[k]).drop_last() =~= before);
    }
    if forall|j: int|
        0 <= j < fingerprints.len() ==> (#[trigger] fingerprints[j]).original_id@ != id {
        if held.contains(id) {
            let j = choose|j: int| 0 <= j < held.len() && held[j] == id;
            assert(fingerprints[j].original_id@ == id);
        }
    }
}

/// A Preview that was made is stored as made, with its state, width, height and cache
/// revision, where the Original File is still the one that it was made from and its kind
/// gives such a source; it is ignored otherwise. A width or height of zero is not stored.
pub proof fn law_previews_are_stored_as_made(facts: Option<SeedFacts>, seed: PreviewSeed)
    ensures
        ({
            let result = seeded(facts, seed);
            let stored = result->Ok_0.1->0;
            let current = facts is Some && facts->0.size >= 0 && facts->0.revision is Some
                && facts->0.revision->0@ == seed.expected_source_revision@ && ((facts->0.kind@
                == "raw"@ && seed.source == PreviewSource::RawEmbeddedJpeg) || (facts->0.kind@
                == "jpeg"@ && seed.source == PreviewSource::JpegOriginal));
            &&& !current ==> result == Ok::<
                (PreviewSeedResult, Option<PreviewFacts>),
                PersistenceError,
            >((PreviewSeedResult::StaleIgnored, None))
            &&& current && (seed.width == Some(0u32) || seed.height == Some(0u32)) ==> result is Err
                && result->Err_0 == PersistenceError::Storage
            &&& current && seed.width != Some(0u32) && seed.height != Some(0u32) ==> {
                &&& result is Ok
                &&& result->Ok_0.0 == PreviewSeedResult::Applied
                &&& result->Ok_0.1 is Some
                &&& stored.state == seed.state
                &&& stored.source_revision is Some
                &&& stored.source_revision->0@ == seed.expected_source_revision@
                &&& stored.width == seed.width
                &&& stored.height == seed.height
                &&& stored.cache_revision == seed.cache_revision
            }
        }),
{
    if facts is Some {
        law_kinds_are_stored_by_name(facts->0.kind@);
    }
}

proof fn lemma_surveyed(
    photos: Seq<PhotoView>,
    tables: TablesView,
    members: Seq<Seq<char>>,
    p: int,
)
    requires
        0 <= p < photos.len(),
        surveyed(photos[p], tables),
    ensures
        unavailable_rows(photos, tables, members).contains(
            unavailable_row(photos[p], tables, members),
        ),
    decreases photos.len(),
{
    let front = photos.drop_last();
    let before = unavailable_rows(front, tables, members);
    let after = unavailable_rows(photos, tables, members);
    let row = unavailable_row(photos[p], tables, members);
    if p < front.len() {
        assert(front[p] == photos[p]);
        lemma_surveyed(front, tables, members, p);
        let k = choose|k: int| 0 <= k < before.len() && before[k] == row;
        assert(after[k] == row);
    } else {
        assert(after[before.len() as int] == row);
    }
}

proof fn lemma_surveyed_from(
    photos: Seq<PhotoView>,
    tables: TablesView,
    members: Seq<Seq<char>>,
    k: int,
)
    requires
        0 <= k < unavailable_rows(photos, tables, members).len(),
    ensures
        exists|p: int|
            0 <= p < photos.len() && surveyed(#[trigger] photos[p], tables) && unavailable_rows(
                photos,
                tables,
                members,
            )[k] == unavailable_row(photos[p], tables, members),
    decreases photos.len(),
{
    let front = photos.drop_last();
    let before = unavailable_rows(front, tables, members);
    if k < before.len() {
        lemma_surveyed_from(front, tables, members, k);
        let p = choose|p: int|
            0 <= p < front.len() && surveyed(#[trigger] front[p], tables) && before[k]
                == unavailable_row(front[p], tables, members);
        assert(photos[p] == front[p]);
    } else {
        assert(surveyed(photos[photos.len() - 1], tables));
    }
}

/// A survey tells every Photo that is missing and was not removed, with its decisions and
/// with the path and kind of its Original File, and how many Albums hold it.
pub proof fn law_missing_photos_are_surveyed(
    tables: ScanTables,
    members: Seq<Seq<char>>,
    p: int,
    o: int,
)
    requires
        0 <= p < tables.photos.len(),
        0 <= o < tables.originals.len(),
        !tables.photos@[p].available,
        !tables.photos@[p].removed,
        tables.photos@[p].original_id@ == tables.originals@[o].id@,
        forall|a: int, b: int|
            0 <= a < b < tables.originals.len() ==> (#[trigger] tables.originals@[a]).id@ != (
            #[trigger] tables.originals@[b]).id@,
    ensures
        exists|k: int|
            0 <= k < unavailable_rows(tables@.photos, tables@, members).len() && {
                let row = #[trigger] unavailable_rows(tables@.photos, tables@, members)[k];
                &&& row.photo_id == tables.photos@[p].id@
                &&& row.original_id == tables.originals@[o].id@
                &&& row.relative_path == tables.originals@[o].relative_path@
                &&& row.kind == tables.originals@[o].kind
                &&& row.rating == tables.photos@[p].rating
                &&& row.selection_state == tables.photos@[p].selection_state
                &&& row.album_count == occurrences(members, tables.photos@[p].id@)
                &&& forall|f: int|
                    0 <= f < tables.fingerprints.len() && (
                    #[trigger] tables.fingerprints@[f]).original_id@ == tables.originals@[o].id@
                        ==> row.fingerprint is Some
            },
{
    let view = tables@;
    let ids = original_ids(view.originals);
    let id = tables.originals@[o].id@;
    assert(view.originals[o] == tables.originals@[o]@);
    assert(view.photos[p] == tables.photos@[p]@);
    assert(ids[o] == id);
    assert forall|j: int| o < j < ids.len() implies ids[j] != id by {
        assert(view.originals[j] == tables.originals@[j]@);
        assert(ids[j] == tables.originals@[j].id@);
    }
    lemma_last_index(ids, id, o);
    lemma_surveyed(view.photos, view, members, p);
    let rows = unavailable_rows(view.photos, view, members);
    let row = unavailable_row(view.photos[p], view, members);
    let k = choose|k: int| 0 <= k < rows.len() && rows[k] == row;
    let prints = fingerprint_ids(view.fingerprints);
    lemma_last_index_found(prints, id);
    assert forall|f: int|
        0 <= f < tables.fingerprints.len() && (#[trigger] tables.fingerprints@[f]).original_id@
            == id implies row.fingerprint is Some by {
        assert(view.fingerprints[f] == tables.fingerprints@[f]@);
        assert(prints[f] == id);
    }
    assert(rows[k].photo_id == tables.photos@[p].id@);
}

/// A survey tells no other Photo.
pub proof fn law_surveyed_photos_are_missing(
    tables: ScanTables,
    members: Seq<Seq<char>>,
    k: int,
)
    requires
        0 <= k < unavailable_rows(tables@.photos, tables@, members).len(),
    ensures
        exists|p: int|
            0 <= p < tables.photos.len() && (#[trigger] tables.photos@[p]).id@ == unavailable_rows(
                tables@.photos,
                tables@,
                members,
            )[k].photo_id && !tables.photos@[p].available && !tables.photos@[p].removed,
{
    lemma_surveyed_from(tables@.photos, tables@, members, k);
    let p = choose|p: int|
        0 <= p < tables@.photos.len() && surveyed(#[trigger] tables@.photos[p], tables@)
            && unavailable_rows(tables@.photos, tables@, members)[k] == unavailable_row(
            tables@.photos[p],
            tables@,
            members,
        );
    assert(tables@.photos[p] == tables.photos@[p]@);
    assert(tables.photos@[p].id@ == unavailable_rows(tables@.photos, tables@, members)[k].photo_id);
}

/// The Albums that hold a Photo are counted by its memberships.
pub proof fn law_memberships_are_counted(list: Seq<Seq<char>>, last: Seq<char>, text: Seq<char>)
    ensures
        occurrences(Seq::<Seq<char>>::empty(), text) == 0,
        last == text ==> occurrences(list.push(last), text) == occurrences(list, text) + 1,
        last != text ==> occurrences(list.push(last), text) == occurrences(list, text),
{
    assert(list.push(last).drop_last() =~= list);
    assert(list.push(last).last() == last);
}

/// Missing Photos are told every one, by the paths of their Original Files.
pub proof fn law_missing_photos_stand_by_path(rows: Seq<UnavailableView>, row: UnavailableView)
    ensures
        by_path(rows).len() == rows.len(),
        by_path(rows).contains(row) <==> rows.contains(row),
        forall|i: int, j: int|
            0 <= i < j < rows.len() ==> !text_less(
                (#[trigger] by_path(rows)[j]).relative_path,
                (#[trigger] by_path(rows)[i]).relative_path,
            ),
{
    let keys = unavailable_keys(rows);
    let order = sort_order(keys, rows.len());
    law_sorting_orders_every_row(keys, rows.len());
    let sorted = by_path(rows);
    if sorted.contains(row) {
        let i = choose|i: int| 0 <= i < sorted.len() && sorted[i] == row;
        assert(rows[order[i]] == row);
    }
    if rows.contains(row) {
        let i = choose|i: int| 0 <= i < rows.len() && rows[i] == row;
        assert(order.contains(i));
        let k = choose|k: int| 0 <= k < order.len() && order[k] == i;
        assert(sorted[k] == row);
    }
    assert forall|i: int, j: int| 0 <= i < j < rows.len() implies !text_less(
        (#[trigger] sorted[j]).relative_path,
        (#[trigger] sorted[i]).relative_path,
    ) by {
        let a = keys[order[i]];
        let b = keys[order[j]];
        assert(!key_less(b, a));
        if text_less(sorted[j].relative_path, sorted[i].relative_path) {
            law_order_is_irreflexive(sorted[i].relative_path);
            assert(b.texts[0] == sorted[j].relative_path);
            assert(a.texts[0] == sorted[i].relative_path);
            assert(texts_less(b.texts, a.texts));
        }
    }
}

} // verus!
