//! What a scan does to the stored Original Files, Photos and fingerprints.
//!
//! A scan first settles which identity each discovered Location has
//! ([`scan_identities`]); the Photos are then reconciled with what was found,
//! and [`apply_scan`] says what is stored afterwards, or why nothing is.
use crate::binary::{nonnegative, same_real};
use crate::codec::{capture_fact_valid, validate_capture_fact, PreviewState, SelectionState};
use crate::error::PersistenceError;
use crate::identity::reserve_library_id;
use crate::scan_state::{
    clone_capture, clone_fingerprint, clone_original, clone_photo, discovered_paths,
    fingerprint_ids, fingerprints_view, index_of_discovery, index_of_fingerprint,
    index_of_location, index_of_original, index_of_photo_row, index_of_relocated_id,
    index_of_relocated_path, new_pending_capture, original_ids, original_paths, originals_view,
    pending_capture, photo_ids, photos_view, relocation_ids, relocation_paths, DiscoveredFingerprint,
    DiscoveredOriginal, FingerprintView, OriginalFingerprint, OriginalRecord, OriginalView,
    PhotoRecord, PhotoView, ScanRecoveryPlan, ScanRelocation, ScanTables,
};
use crate::text::{
    clone_opt_text, distinct_texts, last_index, lemma_last_index_found, lemma_texts_push,
    length_before_nul, opt_text, same_text, stored_length, texts,
};
use vstd::prelude::*;
use vstd::string::*;

verus! {

/// Whether a relocation names a stored Original File and a discovered Location
/// of the same kind.
pub open spec fn relocation_fits(
    originals: Seq<OriginalView>,
    discovered: Seq<DiscoveredOriginal>,
    relocation: ScanRelocation,
) -> bool {
    let stored = last_index(original_ids(originals), relocation.original_id@);
    let found = last_index(discovered_paths(discovered), relocation.path@);
    stored is Some && found is Some && discovered[found->0].kind == originals[stored->0].kind
}

/// The Location of an Original File after the relocations.
pub open spec fn final_path(row: OriginalView, relocations: Seq<ScanRelocation>) -> Seq<char> {
    match last_index(relocation_ids(relocations), row.id) {
        Some(k) => relocations[k].path@,
        None => row.relative_path,
    }
}

/// The Locations of the stored Original Files after the relocations.
pub open spec fn final_paths(
    originals: Seq<OriginalView>,
    relocations: Seq<ScanRelocation>,
) -> Seq<Seq<char>> {
    Seq::new(originals.len(), |i: int| final_path(originals[i], relocations))
}

/// Whether relocations can be applied: each one fits, none moves an Original
/// File twice, and no two Original Files end at one Location. A relocated one
/// may land where another one left.
pub open spec fn relocations_fit(
    originals: Seq<OriginalView>,
    discovered: Seq<DiscoveredOriginal>,
    relocations: Seq<ScanRelocation>,
) -> bool {
    &&& forall|i: int|
        0 <= i < relocations.len() ==> relocation_fits(
            originals,
            discovered,
            #[trigger] relocations[i],
        )
    &&& relocation_ids(relocations).no_duplicates()
    &&& final_paths(originals, relocations).no_duplicates()
}

/// Whether relocations can be applied.
pub fn check_relocations(
    originals: &Vec<OriginalRecord>,
    discovered: &Vec<DiscoveredOriginal>,
    relocations: &Vec<ScanRelocation>,
) -> (fit: bool)
    ensures
        fit == relocations_fit(originals_view(originals@), discovered@, relocations@),
{
    let ghost rows = originals_view(originals@);
    let ghost ids = relocation_ids(relocations@);
    let mut i: usize = 0;
    while i < relocations.len()
        invariant
            i <= relocations.len(),
            rows == originals_view(originals@),
            ids == relocation_ids(relocations@),
            forall|j: int|
                0 <= j < i ==> relocation_fits(rows, discovered@, #[trigger] relocations@[j]),
            forall|j: int|
                0 <= j < i ==> last_index(ids, #[trigger] relocations@[j].original_id@) == Some(j),
        decreases relocations.len() - i,
    {
        let ghost r = relocations@[i as int];
        let stored: usize = match index_of_original(originals, &relocations[i].original_id) {
            Some(k) => k,
            None => {
                assert(!relocation_fits(rows, discovered@, relocations@[i as int]));
                return false;
            },
        };
        let found: usize = match index_of_discovery(discovered, &relocations[i].path) {
            Some(k) => k,
            None => {
                assert(!relocation_fits(rows, discovered@, relocations@[i as int]));
                return false;
            },
        };
        if discovered[found].kind != originals[stored].kind {
            assert(!relocation_fits(rows, discovered@, relocations@[i as int]));
            return false;
        }
        match index_of_relocated_id(relocations, &relocations[i].original_id) {
            Some(last) => {
                proof {
                    lemma_last_index_found(ids, r.original_id@);
                }
                if last != i {
                    assert(ids[last as int] == ids[i as int]);
                    return false;
                }
            },
            None => {
                proof {
                    lemma_last_index_found(ids, r.original_id@);
                    assert(ids[i as int] == r.original_id@);
                }
                return false;
            },
        }
        i = i + 1;
    }
    proof {
        assert forall|a: int, b: int| 0 <= a < ids.len() && 0 <= b < ids.len() && a != b implies
            ids[a] != ids[b] by {
            assert(ids[a] == relocations@[a].original_id@);
            assert(ids[b] == relocations@[b].original_id@);
        }
    }
    let mut paths: Vec<String> = Vec::new();
    let mut j: usize = 0;
    while j < originals.len()
        invariant
            j <= originals.len(),
            rows == originals_view(originals@),
            texts(paths@) == final_paths(rows, relocations@).take(j as int),
        decreases originals.len() - j,
    {
        let path: String = match index_of_relocated_id(relocations, &originals[j].id) {
            Some(k) => relocations[k].path.clone(),
            None => originals[j].relative_path.clone(),
        };
        proof {
            lemma_texts_push(paths@, path);
            assert(final_paths(rows, relocations@)[j as int] == path@);
            assert(final_paths(rows, relocations@).take(j + 1) =~= final_paths(
                rows,
                relocations@,
            ).take(j as int).push(path@));
        }
        paths.push(path);
        j = j + 1;
    }
    assert(final_paths(rows, relocations@).take(rows.len() as int) =~= final_paths(
        rows,
        relocations@,
    ));
    distinct_texts(&paths)
}

/// The identity that a Location has already: that of the Original File that was
/// relocated there, else that of the one that is stored there.
pub open spec fn known_id(
    originals: Seq<OriginalView>,
    relocations: Seq<ScanRelocation>,
    path: Seq<char>,
) -> Option<Seq<char>> {
    match last_index(relocation_paths(relocations), path) {
        Some(k) => Some(relocations[k].original_id@),
        None => match last_index(original_paths(originals), path) {
            Some(k) => Some(originals[k].id),
            None => None,
        },
    }
}

/// The identity that a Location has already.
pub fn find_known_id(
    originals: &Vec<OriginalRecord>,
    relocations: &Vec<ScanRelocation>,
    path: &String,
) -> (id: Option<String>)
    ensures
        opt_text(id) == known_id(originals_view(originals@), relocations@, path@),
{
    match index_of_relocated_path(relocations, path) {
        Some(k) => Some(relocations[k].original_id.clone()),
        None => match index_of_location(originals, path) {
            Some(k) => {
                assert(originals_view(originals@)[k as int].id == originals@[k as int].id@);
                Some(originals[k].id.clone())
            },
            None => None,
        },
    }
}

/// What [`ScanIdentities`] stand for.
pub struct IdentitiesView {
    pub ids: Seq<Seq<char>>,
    pub reserved: Seq<Seq<char>>,
}

/// The identity of each discovery, in order, and the new ones among them.
#[derive(Clone, Debug, PartialEq, Eq)]
pub struct ScanIdentities {
    pub ids: Vec<String>,
    pub reserved: Vec<String>,
}

impl View for ScanIdentities {
    type V = IdentitiesView;

    open spec fn view(&self) -> IdentitiesView {
        IdentitiesView { ids: texts(self.ids@), reserved: texts(self.reserved@) }
    }
}

/// The identities of discoveries: one that is known stays, else the next fresh
/// one is taken; none if that one is in use.
pub open spec fn identities(
    originals: Seq<OriginalView>,
    photos: Seq<PhotoView>,
    relocations: Seq<ScanRelocation>,
    discovered: Seq<DiscoveredOriginal>,
    fresh: Seq<Seq<char>>,
) -> Option<IdentitiesView>
    decreases discovered.len(),
{
    if discovered.len() == 0 {
        Some(IdentitiesView { ids: Seq::empty(), reserved: Seq::empty() })
    } else {
        match identities(originals, photos, relocations, discovered.drop_last(), fresh) {
            None => None,
            Some(before) => match known_id(originals, relocations, discovered.last().path@) {
                Some(id) => Some(
                    IdentitiesView { ids: before.ids.push(id), reserved: before.reserved },
                ),
                None => {
                    let id = fresh[before.reserved.len() as int];
                    if original_ids(originals).contains(id) || photo_ids(photos).contains(id)
                        || before.reserved.contains(id) {
                        None
                    } else {
                        Some(
                            IdentitiesView {
                                ids: before.ids.push(id),
                                reserved: before.reserved.push(id),
                            },
                        )
                    }
                },
            },
        }
    }
}

proof fn lemma_identities_stopped(
    originals: Seq<OriginalView>,
    photos: Seq<PhotoView>,
    relocations: Seq<ScanRelocation>,
    discovered: Seq<DiscoveredOriginal>,
    fresh: Seq<Seq<char>>,
    n: int,
)
    requires
        0 <= n <= discovered.len(),
        identities(originals, photos, relocations, discovered.take(n), fresh) is None,
    ensures
        identities(originals, photos, relocations, discovered, fresh) is None,
    decreases discovered.len(),
{
    if n == discovered.len() {
        assert(discovered.take(n) =~= discovered);
    } else {
        assert(discovered.drop_last().take(n) =~= discovered.take(n));
        lemma_identities_stopped(
            originals,
            photos,
            relocations,
            discovered.drop_last(),
            fresh,
            n,
        );
    }
}

fn list_original_ids(rows: &Vec<OriginalRecord>) -> (ids: Vec<String>)
    ensures
        texts(ids@) == original_ids(originals_view(rows@)),
{
    let ghost all = original_ids(originals_view(rows@));
    let mut ids: Vec<String> = Vec::new();
    let mut i: usize = 0;
    while i < rows.len()
        invariant
            i <= rows.len(),
            all == original_ids(originals_view(rows@)),
            texts(ids@) == all.take(i as int),
        decreases rows.len() - i,
    {
        let id: String = rows[i].id.clone();
        proof {
            lemma_texts_push(ids@, id);
            assert(all.take(i + 1) =~= all.take(i as int).push(id@));
        }
        ids.push(id);
        i = i + 1;
    }
    assert(all.take(all.len() as int) =~= all);
    ids
}

fn list_photo_ids(rows: &Vec<PhotoRecord>) -> (ids: Vec<String>)
    ensures
        texts(ids@) == photo_ids(photos_view(rows@)),
{
    let ghost all = photo_ids(photos_view(rows@));
    let mut ids: Vec<String> = Vec::new();
    let mut i: usize = 0;
    while i < rows.len()
        invariant
            i <= rows.len(),
            all == photo_ids(photos_view(rows@)),
            texts(ids@) == all.take(i as int),
        decreases rows.len() - i,
    {
        let id: String = rows[i].id.clone();
        proof {
            lemma_texts_push(ids@, id);
            assert(all.take(i + 1) =~= all.take(i as int).push(id@));
        }
        ids.push(id);
        i = i + 1;
    }
    assert(all.take(all.len() as int) =~= all);
    ids
}

/// Settles the identity of each discovery. `fresh` holds random identities, one
/// for each discovery that may need one; one that is in use already is a
/// collision, and relocations that do not fit are refused before.
pub fn scan_identities(
    tables: &ScanTables,
    discovered: &Vec<DiscoveredOriginal>,
    relocations: &Vec<ScanRelocation>,
    fresh: &Vec<String>,
) -> (result: Result<ScanIdentities, PersistenceError>)
    requires
        discovered.len() <= fresh.len(),
    ensures
        ({
            let originals = originals_view(tables.originals@);
            if !relocations_fit(originals, discovered@, relocations@) {
                result == Err::<ScanIdentities, PersistenceError>(PersistenceError::InvalidRecovery)
            } else {
                match identities(
                    originals,
                    photos_view(tables.photos@),
                    relocations@,
                    discovered@,
                    texts(fresh@),
                ) {
                    Some(settled) => result is Ok && result->Ok_0@ == settled,
                    None => result == Err::<ScanIdentities, PersistenceError>(
                        PersistenceError::IdCollision,
                    ),
                }
            }
        }),
{
    let ghost originals = originals_view(tables.originals@);
    let ghost photos = photos_view(tables.photos@);
    if !check_relocations(&tables.originals, discovered, relocations) {
        return Err(PersistenceError::InvalidRecovery);
    }
    let original_list: Vec<String> = list_original_ids(&tables.originals);
    let photo_list: Vec<String> = list_photo_ids(&tables.photos);
    let mut ids: Vec<String> = Vec::new();
    let mut reserved: Vec<String> = Vec::new();
    let mut i: usize = 0;
    assert(discovered@.take(0) =~= Seq::<DiscoveredOriginal>::empty());
    assert(texts(ids@) =~= Seq::<Seq<char>>::empty());
    assert(texts(reserved@) =~= Seq::<Seq<char>>::empty());
    while i < discovered.len()
        invariant
            i <= discovered.len(),
            discovered.len() <= fresh.len(),
            reserved.len() <= i,
            originals == originals_view(tables.originals@),
            photos == photos_view(tables.photos@),
            texts(original_list@) == original_ids(originals),
            texts(photo_list@) == photo_ids(photos),
            relocations_fit(originals, discovered@, relocations@),
            identities(
                originals,
                photos,
                relocations@,
                discovered@.take(i as int),
                texts(fresh@),
            ) == Some(IdentitiesView { ids: texts(ids@), reserved: texts(reserved@) }),
        decreases discovered.len() - i,
    {
        proof {
            assert(discovered@.take(i + 1).drop_last() =~= discovered@.take(i as int));
            assert(discovered@.take(i + 1).last() == discovered@[i as int]);
        }
        let id: String = match find_known_id(&tables.originals, relocations, &discovered[i].path) {
            Some(id) => id,
            None => {
                let candidate: String = fresh[reserved.len()].clone();
                assert(texts(fresh@)[texts(reserved@).len() as int] == candidate@);
                match reserve_library_id(&original_list, &photo_list, &mut reserved, candidate) {
                    Ok(id) => {
                        assert(texts(reserved@).len() == reserved.len());
                        id
                    },
                    Err(_) => {
                        proof {
                            lemma_identities_stopped(
                                originals,
                                photos,
                                relocations@,
                                discovered@,
                                texts(fresh@),
                                i + 1,
                            );
                        }
                        return Err(PersistenceError::IdCollision);
                    },
                }
            },
        };
        proof {
            lemma_texts_push(ids@, id);
        }
        ids.push(id);
        i = i + 1;
    }
    assert(discovered@.take(discovered@.len() as int) =~= discovered@);
    Ok(ScanIdentities { ids, reserved })
}

/// A stored Original File once the relocations are applied and nothing is found
/// yet: relocated ones have their new Location and no capture fact, and none is
/// available.
pub open spec fn moved(row: OriginalView, relocations: Seq<ScanRelocation>) -> OriginalView {
    OriginalView {
        relative_path: final_path(row, relocations),
        available: false,
        capture: match last_index(relocation_ids(relocations), row.id) {
            Some(_) => pending_capture(),
            None => row.capture,
        },
        ..row
    }
}

/// The stored Original Files once the relocations are applied.
pub open spec fn all_moved(
    originals: Seq<OriginalView>,
    relocations: Seq<ScanRelocation>,
) -> Seq<OriginalView> {
    Seq::new(originals.len(), |i: int| moved(originals[i], relocations))
}

fn move_originals(originals: &Vec<OriginalRecord>, relocations: &Vec<ScanRelocation>) -> (rows: Vec<
    OriginalRecord,
>)
    ensures
        originals_view(rows@) == all_moved(originals_view(originals@), relocations@),
{
    let ghost goal = all_moved(originals_view(originals@), relocations@);
    let mut rows: Vec<OriginalRecord> = Vec::new();
    let mut i: usize = 0;
    while i < originals.len()
        invariant
            i <= originals.len(),
            goal == all_moved(originals_view(originals@), relocations@),
            originals_view(rows@) == goal.take(i as int),
        decreases originals.len() - i,
    {
        let mut row: OriginalRecord = clone_original(&originals[i]);
        row.available = false;
        match index_of_relocated_id(relocations, &originals[i].id) {
            Some(k) => {
                row.relative_path = relocations[k].path.clone();
                row.capture = new_pending_capture();
            },
            None => {},
        }
        proof {
            assert(row@ == goal[i as int]);
            assert(originals_view(rows@.push(row)) =~= originals_view(rows@).push(row@));
            assert(goal.take(i + 1) =~= goal.take(i as int).push(goal[i as int]));
        }
        rows.push(row);
        i = i + 1;
    }
    assert(goal.take(goal.len() as int) =~= goal);
    rows
}

/// Whether the database takes what was discovered: the capture fact holds
/// together, the numbers are in their ranges and the message is short enough.
pub open spec fn storable(found: DiscoveredOriginal) -> bool {
    &&& capture_fact_valid(found.capture)
    &&& found.size <= i64::MAX
    &&& nonnegative(found.mtime_ms)
    &&& found.error_message is Some ==> stored_length(found.error_message->0@) <= 120
    &&& found.capture.offset_minutes is Some ==> -840 <= found.capture.offset_minutes->0 <= 840
}

/// Whether the database takes what was discovered.
pub fn is_storable(found: &DiscoveredOriginal) -> (answer: bool)
    ensures
        answer == storable(*found),
{
    if validate_capture_fact(&found.capture).is_err() || found.size > i64::MAX as u64
        || !found.mtime_ms.is_nonnegative() {
        return false;
    }
    match &found.error_message {
        Some(message) => {
            if length_before_nul(message) > 120 {
                return false;
            }
        },
        None => {},
    }
    match found.capture.offset_minutes {
        Some(offset) => -840 <= offset && offset <= 840,
        None => true,
    }
}

/// The row of an Original File that was discovered.
pub open spec fn found_row(id: Seq<char>, found: DiscoveredOriginal) -> OriginalView {
    OriginalView {
        id,
        relative_path: found.path@,
        kind: found.kind,
        size: found.size,
        mtime_ms: found.mtime_ms,
        available: found.error_category is None,
        error_category: found.error_category,
        error_message: opt_text(found.error_message),
        capture: found.capture@,
    }
}

/// The Original Files once a discovery is stored: the one at its Location keeps
/// its identity, else a new one gets the identity that was settled. None if the
/// database does not take it.
pub open spec fn original_stored(
    rows: Seq<OriginalView>,
    found: DiscoveredOriginal,
    id: Seq<char>,
) -> Option<Seq<OriginalView>> {
    if !storable(found) {
        None
    } else {
        match last_index(original_paths(rows), found.path@) {
            Some(k) => Some(rows.update(k, found_row(rows[k].id, found))),
            None => if original_ids(rows).contains(id) {
                None
            } else {
                Some(rows.push(found_row(id, found)))
            },
        }
    }
}

/// The identity that was settled for a discovered Location.
pub open spec fn settled_id(
    discovered: Seq<DiscoveredOriginal>,
    ids: Seq<Seq<char>>,
    path: Seq<char>,
) -> Seq<char> {
    ids[last_index(discovered_paths(discovered), path)->0]
}

/// The Original Files once the first discoveries are stored.
pub open spec fn originals_stored(
    rows: Seq<OriginalView>,
    discovered: Seq<DiscoveredOriginal>,
    ids: Seq<Seq<char>>,
    n: nat,
) -> Option<Seq<OriginalView>>
    decreases n,
{
    if n == 0 {
        Some(rows)
    } else {
        let found = discovered[n - 1];
        match originals_stored(rows, discovered, ids, (n - 1) as nat) {
            None => None,
            Some(before) => original_stored(
                before,
                found,
                settled_id(discovered, ids, found.path@),
            ),
        }
    }
}

proof fn lemma_originals_stopped(
    rows: Seq<OriginalView>,
    discovered: Seq<DiscoveredOriginal>,
    ids: Seq<Seq<char>>,
    n: nat,
    m: nat,
)
    requires
        n <= m,
        originals_stored(rows, discovered, ids, n) is None,
    ensures
        originals_stored(rows, discovered, ids, m) is None,
    decreases m,
{
    if n < m {
        lemma_originals_stopped(rows, discovered, ids, n, (m - 1) as nat);
    }
}

fn store_original(
    rows: &mut Vec<OriginalRecord>,
    found: &DiscoveredOriginal,
    id: &String,
) -> (stored: bool)
    ensures
        match original_stored(originals_view(old(rows)@), *found, id@) {
            Some(after) => stored && originals_view(final(rows)@) == after,
            None => !stored,
        },
{
    let ghost before = originals_view(rows@);
    if !is_storable(found) {
        return false;
    }
    let index: Option<usize> = index_of_location(rows, &found.path);
    let own: String = match index {
        Some(k) => rows[k].id.clone(),
        None => {
            match index_of_original(rows, id) {
                Some(k) => {
                    proof {
                        lemma_last_index_found(original_ids(before), id@);
                        assert(original_ids(before)[k as int] == id@);
                    }
                    return false;
                },
                None => {},
            }
            proof {
                lemma_last_index_found(original_ids(before), id@);
            }
            id.clone()
        },
    };
    let row: OriginalRecord = OriginalRecord {
        id: own,
        relative_path: found.path.clone(),
        kind: found.kind,
        size: found.size,
        mtime_ms: found.mtime_ms,
        available: found.error_category.is_none(),
        error_category: found.error_category,
        error_message: clone_opt_text(&found.error_message),
        capture: clone_capture(&found.capture),
    };
    assert(row@ == found_row(row.id@, *found));
    match index {
        Some(k) => {
            assert(originals_view(rows@.update(k as int, row)) =~= before.update(k as int, row@));
            rows[k] = row;
        },
        None => {
            assert(originals_view(rows@.push(row)) =~= before.push(row@));
            rows.push(row);
        },
    }
    true
}

fn store_originals(
    rows: &mut Vec<OriginalRecord>,
    discovered: &Vec<DiscoveredOriginal>,
    ids: &Vec<String>,
) -> (stored: bool)
    requires
        ids.len() == discovered.len(),
    ensures
        match originals_stored(
            originals_view(old(rows)@),
            discovered@,
            texts(ids@),
            discovered@.len(),
        ) {
            Some(after) => stored && originals_view(final(rows)@) == after,
            None => !stored,
        },
{
    let ghost start = originals_view(rows@);
    let mut i: usize = 0;
    while i < discovered.len()
        invariant
            i <= discovered.len(),
            ids.len() == discovered.len(),
            originals_stored(start, discovered@, texts(ids@), i as nat) == Some(
                originals_view(rows@),
            ),
            start == originals_view(old(rows)@),
        decreases discovered.len() - i,
    {
        let last: usize = match index_of_discovery(discovered, &discovered[i].path) {
            Some(k) => k,
            None => {
                proof {
                    lemma_last_index_found(discovered_paths(discovered@), discovered@[i as int].path@);
                    assert(discovered_paths(discovered@)[i as int] == discovered@[i as int].path@);
                }
                i
            },
        };
        assert(texts(ids@)[last as int] == ids@[last as int]@);
        assert(settled_id(discovered@, texts(ids@), discovered@[i as int].path@)
            == ids@[last as int]@);
        if !store_original(rows, &discovered[i], &ids[last]) {
            proof {
                lemma_originals_stopped(
                    start,
                    discovered@,
                    texts(ids@),
                    (i + 1) as nat,
                    discovered@.len(),
                );
            }
            return false;
        }
        i = i + 1;
    }
    true
}

/// What is stored of a Preview.
#[derive(Clone, Debug, PartialEq, Eq)]
pub struct PreviewFacts {
    pub state: PreviewState,
    pub source_revision: Option<String>,
    pub width: Option<u32>,
    pub height: Option<u32>,
    pub cache_revision: Option<String>,
}

/// A Photo as it was reconciled with what a scan found: its Original File and
/// whether that can be read, what was stored of its Preview before and whether
/// that still describes the source, and the Location of the source.
#[derive(Clone, Debug, PartialEq, Eq)]
pub struct ReconciledPhoto {
    pub id: String,
    pub original_id: String,
    pub available: bool,
    pub prior: Option<PreviewFacts>,
    pub preserve: bool,
    pub selected_path: Option<String>,
    pub sort_path: String,
}

/// The row of a Photo that was reconciled, over the row that it had, if any: the
/// Preview stays if it still describes the source, and what was decided stays.
pub open spec fn reconciled_row(
    photo: ReconciledPhoto,
    stored: Option<PhotoView>,
) -> PhotoView {
    let kept = photo.preserve && photo.prior is Some;
    let prior = photo.prior->0;
    PhotoView {
        id: photo.id@,
        original_id: photo.original_id@,
        available: photo.available,
        preview_state: if kept {
            prior.state
        } else if photo.selected_path is Some {
            PreviewState::InspectionPending
        } else {
            PreviewState::Unavailable
        },
        preview_source_revision: if kept {
            opt_text(prior.source_revision)
        } else {
            None
        },
        preview_width: if kept {
            prior.width
        } else {
            None
        },
        preview_height: if kept {
            prior.height
        } else {
            None
        },
        cache_revision: if kept {
            opt_text(prior.cache_revision)
        } else {
            None
        },
        sort_path: if photo.sort_path@.len() > 0 {
            photo.sort_path@
        } else {
            match photo.selected_path {
                Some(path) => path@,
                None => Seq::empty(),
            }
        },
        selection_state: match stored {
            Some(row) => row.selection_state,
            None => SelectionState::Undecided,
        },
        rating: match stored {
            Some(row) => row.rating,
            None => 0,
        },
        has_saved_edits: match stored {
            Some(row) => row.has_saved_edits,
            None => false,
        },
        removed: match stored {
            Some(row) => row.removed,
            None => false,
        },
    }
}

/// Whether another Photo than the given one has an Original File.
pub open spec fn taken_by_other(
    rows: Seq<PhotoView>,
    id: Seq<char>,
    original_id: Seq<char>,
) -> bool {
    exists|i: int|
        0 <= i < rows.len() && #[trigger] rows[i].original_id == original_id && rows[i].id != id
}

/// The Photos once a reconciled one is stored. None if the database does not
/// take it: its Original File must be stored and be no other Photo's, and the
/// dimensions of a Preview are above zero.
pub open spec fn photo_stored(
    rows: Seq<PhotoView>,
    originals: Seq<OriginalView>,
    photo: ReconciledPhoto,
) -> Option<Seq<PhotoView>> {
    let index = last_index(photo_ids(rows), photo.id@);
    let row = reconciled_row(
        photo,
        match index {
            Some(k) => Some(rows[k]),
            None => None,
        },
    );
    if !original_ids(originals).contains(photo.original_id@) || taken_by_other(
        rows,
        photo.id@,
        photo.original_id@,
    ) || row.preview_width == Some(0u32) || row.preview_height == Some(0u32) {
        None
    } else {
        match index {
            Some(k) => Some(rows.update(k, row)),
            None => Some(rows.push(row)),
        }
    }
}

/// The Photos once the reconciled ones are stored.
pub open spec fn photos_stored(
    rows: Seq<PhotoView>,
    originals: Seq<OriginalView>,
    photos: Seq<ReconciledPhoto>,
) -> Option<Seq<PhotoView>>
    decreases photos.len(),
{
    if photos.len() == 0 {
        Some(rows)
    } else {
        match photos_stored(rows, originals, photos.drop_last()) {
            None => None,
            Some(before) => photo_stored(before, originals, photos.last()),
        }
    }
}

proof fn lemma_photos_stopped(
    rows: Seq<PhotoView>,
    originals: Seq<OriginalView>,
    photos: Seq<ReconciledPhoto>,
    n: int,
)
    requires
        0 <= n <= photos.len(),
        photos_stored(rows, originals, photos.take(n)) is None,
    ensures
        photos_stored(rows, originals, photos) is None,
    decreases photos.len(),
{
    if n == photos.len() {
        assert(photos.take(n) =~= photos);
    } else {
        assert(photos.drop_last().take(n) =~= photos.take(n));
        lemma_photos_stopped(rows, originals, photos.drop_last(), n);
    }
}

/// The Photos when nothing is found yet: none is available.
pub open spec fn all_unavailable(rows: Seq<PhotoView>) -> Seq<PhotoView> {
    Seq::new(rows.len(), |i: int| PhotoView { available: false, ..rows[i] })
}

fn hide_photos(photos: &Vec<PhotoRecord>) -> (rows: Vec<PhotoRecord>)
    ensures
        photos_view(rows@) == all_unavailable(photos_view(photos@)),
{
    let ghost goal = all_unavailable(photos_view(photos@));
    let mut rows: Vec<PhotoRecord> = Vec::new();
    let mut i: usize = 0;
    while i < photos.len()
        invariant
            i <= photos.len(),
            goal == all_unavailable(photos_view(photos@)),
            photos_view(rows@) == goal.take(i as int),
        decreases photos.len() - i,
    {
        let mut row: PhotoRecord = clone_photo(&photos[i]);
        row.available = false;
        proof {
            assert(row@ == goal[i as int]);
            assert(photos_view(rows@.push(row)) =~= photos_view(rows@).push(row@));
            assert(goal.take(i + 1) =~= goal.take(i as int).push(goal[i as int]));
        }
        rows.push(row);
        i = i + 1;
    }
    assert(goal.take(goal.len() as int) =~= goal);
    rows
}

fn is_taken_by_other(rows: &Vec<PhotoRecord>, id: &String, original_id: &String) -> (answer: bool)
    ensures
        answer == taken_by_other(photos_view(rows@), id@, original_id@),
{
    let ghost views = photos_view(rows@);
    let mut i: usize = 0;
    while i < rows.len()
        invariant
            i <= rows.len(),
            views == photos_view(rows@),
            forall|j: int|
                0 <= j < i ==> !(#[trigger] views[j].original_id == original_id@ && views[j].id
                    != id@),
        decreases rows.len() - i,
    {
        assert(views[i as int] == rows@[i as int]@);
        if same_text(&rows[i].original_id, original_id) && !same_text(&rows[i].id, id) {
            assert(views[i as int].original_id == original_id@);
            return true;
        }
        i = i + 1;
    }
    false
}

fn store_photo(
    rows: &mut Vec<PhotoRecord>,
    originals: &Vec<OriginalRecord>,
    photo: &ReconciledPhoto,
) -> (stored: bool)
    ensures
        match photo_stored(photos_view(old(rows)@), originals_view(originals@), *photo) {
            Some(after) => stored && photos_view(final(rows)@) == after,
            None => !stored,
        },
{
    let ghost before = photos_view(rows@);
    let ghost owners = original_ids(originals_view(originals@));
    proof {
        lemma_last_index_found(owners, photo.original_id@);
    }
    match index_of_original(originals, &photo.original_id) {
        Some(k) => {
            assert(owners[k as int] == photo.original_id@);
        },
        None => {
            return false;
        },
    }
    if is_taken_by_other(rows, &photo.id, &photo.original_id) {
        return false;
    }
    let index: Option<usize> = index_of_photo_row(rows, &photo.id);
    let preview: PreviewFacts = match &photo.prior {
        Some(prior) if photo.preserve => PreviewFacts {
            state: prior.state,
            source_revision: clone_opt_text(&prior.source_revision),
            width: prior.width,
            height: prior.height,
            cache_revision: clone_opt_text(&prior.cache_revision),
        },
        _ => PreviewFacts {
            state: if photo.selected_path.is_some() {
                PreviewState::InspectionPending
            } else {
                PreviewState::Unavailable
            },
            source_revision: None,
            width: None,
            height: None,
            cache_revision: None,
        },
    };
    let no_width: bool = match preview.width {
        Some(width) => width == 0,
        None => false,
    };
    let no_height: bool = match preview.height {
        Some(height) => height == 0,
        None => false,
    };
    if no_width || no_height {
        return false;
    }
    let sort_path: String = if photo.sort_path.as_str().unicode_len() > 0 {
        photo.sort_path.clone()
    } else {
        match &photo.selected_path {
            Some(path) => path.clone(),
            None => String::new(),
        }
    };
    let (selection_state, rating, has_saved_edits, removed) = match index {
        Some(k) => (
            rows[k].selection_state,
            rows[k].rating,
            rows[k].has_saved_edits,
            rows[k].removed,
        ),
        None => (SelectionState::Undecided, 0u8, false, false),
    };
    let row: PhotoRecord = PhotoRecord {
        id: photo.id.clone(),
        original_id: photo.original_id.clone(),
        available: photo.available,
        preview_state: preview.state,
        preview_source_revision: preview.source_revision,
        preview_width: preview.width,
        preview_height: preview.height,
        cache_revision: preview.cache_revision,
        sort_path,
        selection_state,
        rating,
        has_saved_edits,
        removed,
    };
    match index {
        Some(k) => {
            assert(row@.sort_path =~= reconciled_row(*photo, Some(before[k as int])).sort_path);
            assert(row@ == reconciled_row(*photo, Some(before[k as int])));
            assert(photos_view(rows@.update(k as int, row)) =~= before.update(k as int, row@));
            rows[k] = row;
        },
        None => {
            assert(row@.sort_path =~= reconciled_row(*photo, None).sort_path);
            assert(row@ == reconciled_row(*photo, None));
            assert(photos_view(rows@.push(row)) =~= before.push(row@));
            rows.push(row);
        },
    }
    true
}

fn store_photos(
    rows: &mut Vec<PhotoRecord>,
    originals: &Vec<OriginalRecord>,
    photos: &Vec<ReconciledPhoto>,
) -> (stored: bool)
    ensures
        match photos_stored(photos_view(old(rows)@), originals_view(originals@), photos@) {
            Some(after) => stored && photos_view(final(rows)@) == after,
            None => !stored,
        },
{
    let ghost start = photos_view(rows@);
    let mut i: usize = 0;
    assert(photos@.take(0) =~= Seq::<ReconciledPhoto>::empty());
    while i < photos.len()
        invariant
            i <= photos.len(),
            start == photos_view(old(rows)@),
            photos_stored(start, originals_view(originals@), photos@.take(i as int)) == Some(
                photos_view(rows@),
            ),
        decreases photos.len() - i,
    {
        proof {
            assert(photos@.take(i + 1).drop_last() =~= photos@.take(i as int));
            assert(photos@.take(i + 1).last() == photos@[i as int]);
        }
        if !store_photo(rows, originals, &photos[i]) {
            proof {
                lemma_photos_stopped(start, originals_view(originals@), photos@, i + 1);
            }
            return false;
        }
        i = i + 1;
    }
    assert(photos@.take(photos@.len() as int) =~= photos@);
    true
}

/// Whether a fingerprint describes another revision of its Original File than
/// the stored one.
pub open spec fn stale(fingerprint: FingerprintView, originals: Seq<OriginalView>) -> bool {
    match last_index(original_ids(originals), fingerprint.original_id) {
        Some(k) => fingerprint.size != originals[k].size || !same_real(
            fingerprint.mtime_ms,
            originals[k].mtime_ms,
        ),
        None => false,
    }
}

/// The fingerprints that describe the stored revision.
pub open spec fn current_fingerprints(
    rows: Seq<FingerprintView>,
    originals: Seq<OriginalView>,
) -> Seq<FingerprintView>
    decreases rows.len(),
{
    if rows.len() == 0 {
        Seq::empty()
    } else {
        let before = current_fingerprints(rows.drop_last(), originals);
        if stale(rows.last(), originals) {
            before
        } else {
            before.push(rows.last())
        }
    }
}

fn keep_current(rows: &Vec<OriginalFingerprint>, originals: &Vec<OriginalRecord>) -> (kept: Vec<
    OriginalFingerprint,
>)
    ensures
        fingerprints_view(kept@) == current_fingerprints(
            fingerprints_view(rows@),
            originals_view(originals@),
        ),
{
    let ghost all = fingerprints_view(rows@);
    let mut kept: Vec<OriginalFingerprint> = Vec::new();
    let mut i: usize = 0;
    assert(all.take(0) =~= Seq::<FingerprintView>::empty());
    assert(fingerprints_view(kept@) =~= Seq::<FingerprintView>::empty());
    while i < rows.len()
        invariant
            i <= rows.len(),
            all == fingerprints_view(rows@),
            fingerprints_view(kept@) == current_fingerprints(
                all.take(i as int),
                originals_view(originals@),
            ),
        decreases rows.len() - i,
    {
        proof {
            assert(all.take(i + 1).drop_last() =~= all.take(i as int));
            assert(all.take(i + 1).last() == rows@[i as int]@);
        }
        let outdated: bool = match index_of_original(originals, &rows[i].original_id) {
            Some(k) => rows[i].size != originals[k].size || !rows[i].mtime_ms.same(
                originals[k].mtime_ms,
            ),
            None => false,
        };
        assert(outdated == stale(rows@[i as int]@, originals_view(originals@)));
        if !outdated {
            let row: OriginalFingerprint = clone_fingerprint(&rows[i]);
            assert(fingerprints_view(kept@.push(row)) =~= fingerprints_view(kept@).push(row@));
            kept.push(row);
        }
        i = i + 1;
    }
    assert(all.take(all.len() as int) =~= all);
    kept
}

/// The fingerprints once a computed digest is stored for the Original File at
/// its Location.
pub open spec fn fingerprint_stored(
    rows: Seq<FingerprintView>,
    originals: Seq<OriginalView>,
    fingerprint: DiscoveredFingerprint,
) -> Result<Seq<FingerprintView>, PersistenceError> {
    match last_index(original_paths(originals), fingerprint.path@) {
        None => Err(PersistenceError::InvalidRecovery),
        Some(k) => if stored_length(fingerprint.digest@) != 64 {
            Err(PersistenceError::Storage)
        } else {
            let row = FingerprintView {
                original_id: originals[k].id,
                digest: fingerprint.digest@,
                size: originals[k].size,
                mtime_ms: originals[k].mtime_ms,
            };
            Ok(
                match last_index(fingerprint_ids(rows), originals[k].id) {
                    Some(f) => rows.update(f, row),
                    None => rows.push(row),
                },
            )
        },
    }
}

/// The fingerprints once the computed digests are stored.
pub open spec fn fingerprints_stored(
    rows: Seq<FingerprintView>,
    originals: Seq<OriginalView>,
    fingerprints: Seq<DiscoveredFingerprint>,
) -> Result<Seq<FingerprintView>, PersistenceError>
    decreases fingerprints.len(),
{
    if fingerprints.len() == 0 {
        Ok(rows)
    } else {
        match fingerprints_stored(rows, originals, fingerprints.drop_last()) {
            Err(error) => Err(error),
            Ok(before) => fingerprint_stored(before, originals, fingerprints.last()),
        }
    }
}

proof fn lemma_fingerprints_stopped(
    rows: Seq<FingerprintView>,
    originals: Seq<OriginalView>,
    fingerprints: Seq<DiscoveredFingerprint>,
    n: int,
)
    requires
        0 <= n <= fingerprints.len(),
        fingerprints_stored(rows, originals, fingerprints.take(n)) is Err,
    ensures
        fingerprints_stored(rows, originals, fingerprints) == fingerprints_stored(
            rows,
            originals,
            fingerprints.take(n),
        ),
    decreases fingerprints.len(),
{
    if n == fingerprints.len() {
        assert(fingerprints.take(n) =~= fingerprints);
    } else {
        assert(fingerprints.drop_last().take(n) =~= fingerprints.take(n));
        lemma_fingerprints_stopped(rows, originals, fingerprints.drop_last(), n);
    }
}

fn store_fingerprints(
    rows: &mut Vec<OriginalFingerprint>,
    originals: &Vec<OriginalRecord>,
    fingerprints: &Vec<DiscoveredFingerprint>,
) -> (stored: Result<(), PersistenceError>)
    ensures
        match fingerprints_stored(
            fingerprints_view(old(rows)@),
            originals_view(originals@),
            fingerprints@,
        ) {
            Ok(after) => stored is Ok && fingerprints_view(final(rows)@) == after,
            Err(error) => stored == Err::<(), PersistenceError>(error),
        },
{
    let ghost start = fingerprints_view(rows@);
    let ghost files = originals_view(originals@);
    let mut i: usize = 0;
    assert(fingerprints@.take(0) =~= Seq::<DiscoveredFingerprint>::empty());
    while i < fingerprints.len()
        invariant
            i <= fingerprints.len(),
            start == fingerprints_view(old(rows)@),
            files == originals_view(originals@),
            fingerprints_stored(start, files, fingerprints@.take(i as int)) == Ok::<
                Seq<FingerprintView>,
                PersistenceError,
            >(fingerprints_view(rows@)),
        decreases fingerprints.len() - i,
    {
        let ghost before = fingerprints_view(rows@);
        proof {
            assert(fingerprints@.take(i + 1).drop_last() =~= fingerprints@.take(i as int));
            assert(fingerprints@.take(i + 1).last() == fingerprints@[i as int]);
        }
        let k: usize = match index_of_location(originals, &fingerprints[i].path) {
            Some(k) => k,
            None => {
                proof {
                    lemma_fingerprints_stopped(start, files, fingerprints@, i + 1);
                }
                return Err(PersistenceError::InvalidRecovery);
            },
        };
        if length_before_nul(&fingerprints[i].digest) != 64 {
            proof {
                lemma_fingerprints_stopped(start, files, fingerprints@, i + 1);
            }
            return Err(PersistenceError::Storage);
        }
        let row: OriginalFingerprint = OriginalFingerprint {
            original_id: originals[k].id.clone(),
            digest: fingerprints[i].digest.clone(),
            size: originals[k].size,
            mtime_ms: originals[k].mtime_ms,
        };
        match index_of_fingerprint(rows, &originals[k].id) {
            Some(f) => {
                assert(fingerprints_view(rows@.update(f as int, row)) =~= before.update(
                    f as int,
                    row@,
                ));
                rows[f] = row;
            },
            None => {
                assert(fingerprints_view(rows@.push(row)) =~= before.push(row@));
                rows.push(row);
            },
        }
        i = i + 1;
    }
    assert(fingerprints@.take(fingerprints@.len() as int) =~= fingerprints@);
    Ok(())
}

/// What [`ScanTables`] stand for.
pub struct TablesView {
    pub originals: Seq<OriginalView>,
    pub photos: Seq<PhotoView>,
    pub fingerprints: Seq<FingerprintView>,
    pub published: bool,
}

impl View for ScanTables {
    type V = TablesView;

    open spec fn view(&self) -> TablesView {
        TablesView {
            originals: originals_view(self.originals@),
            photos: photos_view(self.photos@),
            fingerprints: fingerprints_view(self.fingerprints@),
            published: self.published,
        }
    }
}

/// The tables once a scan is applied, or why nothing is.
pub open spec fn scan_applied(
    tables: TablesView,
    discovered: Seq<DiscoveredOriginal>,
    ids: Seq<Seq<char>>,
    reconciled: Seq<ReconciledPhoto>,
    relocations: Seq<ScanRelocation>,
    fingerprints: Seq<DiscoveredFingerprint>,
) -> Result<TablesView, PersistenceError> {
    if !relocations_fit(tables.originals, discovered, relocations) {
        Err(PersistenceError::InvalidRecovery)
    } else {
        match originals_stored(
            all_moved(tables.originals, relocations),
            discovered,
            ids,
            discovered.len(),
        ) {
            None => Err(PersistenceError::Storage),
            Some(originals) => match photos_stored(
                all_unavailable(tables.photos),
                originals,
                reconciled,
            ) {
                None => Err(PersistenceError::Storage),
                Some(photos) => match fingerprints_stored(
                    current_fingerprints(tables.fingerprints, originals),
                    originals,
                    fingerprints,
                ) {
                    Err(error) => Err(error),
                    Ok(stored) => Ok(
                        TablesView {
                            originals,
                            photos,
                            fingerprints: stored,
                            published: true,
                        },
                    ),
                },
            },
        }
    }
}

/// Applies a scan: relocations first, then what was found at each Location,
/// the reconciled Photos, and the fingerprints. Either all of it is stored or
/// nothing.
pub fn apply_scan(
    tables: &ScanTables,
    discovered: &Vec<DiscoveredOriginal>,
    ids: &Vec<String>,
    reconciled: &Vec<ReconciledPhoto>,
    recovery: &ScanRecoveryPlan,
) -> (result: Result<ScanTables, PersistenceError>)
    requires
        ids.len() == discovered.len(),
    ensures
        match scan_applied(
            tables@,
            discovered@,
            texts(ids@),
            reconciled@,
            recovery.relocations@,
            recovery.fingerprints@,
        ) {
            Ok(after) => result is Ok && result->Ok_0@ == after,
            Err(error) => result == Err::<ScanTables, PersistenceError>(error),
        },
{
    if !check_relocations(&tables.originals, discovered, &recovery.relocations) {
        return Err(PersistenceError::InvalidRecovery);
    }
    let mut originals: Vec<OriginalRecord> = move_originals(
        &tables.originals,
        &recovery.relocations,
    );
    if !store_originals(&mut originals, discovered, ids) {
        return Err(PersistenceError::Storage);
    }
    let mut photos: Vec<PhotoRecord> = hide_photos(&tables.photos);
    if !store_photos(&mut photos, &originals, reconciled) {
        return Err(PersistenceError::Storage);
    }
    let mut fingerprints: Vec<OriginalFingerprint> = keep_current(
        &tables.fingerprints,
        &originals,
    );
    match store_fingerprints(&mut fingerprints, &originals, &recovery.fingerprints) {
        Ok(_) => Ok(ScanTables { originals, photos, fingerprints, published: true }),
        Err(error) => Err(error),
    }
}

/// What was found can be stored exactly where its size is one that a signed number
/// holds, its time is not below zero, its capture facts go together, its offset is within
/// fourteen hours and its message is short.
pub proof fn law_findings_that_fit_can_be_stored(found: DiscoveredOriginal, answer: bool)
    requires
        call_ensures(is_storable, (&found,), answer),
    ensures
        answer <==> {
            &&& found.size <= 0x7fff_ffff_ffff_ffff
            &&& found.mtime_ms.bits <= 0x7ff0_0000_0000_0000 || found.mtime_ms.bits
                == 0x8000_0000_0000_0000
            &&& found.error_message is None || stored_length(found.error_message->0@) <= 120
            &&& found.capture.offset_minutes is None || -840 <= found.capture.offset_minutes->0
                <= 840
            &&& capture_fact_valid(found.capture)
        },
{
}

} // verus!
