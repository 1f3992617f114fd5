//! Relocations that a Photographer confirmed: Original Files that were missing
//! are bound to the Locations where they were found again.
use crate::codec::{OriginalKind, PreviewState, SelectionState};
use crate::binary::{nonnegative, Real};
use crate::error::PersistenceError;
use crate::scan::TablesView;
use crate::scan_state::{
    clone_fingerprint, clone_original, clone_photo, fingerprints_view, index_of_location,
    index_of_original, new_pending_capture, original_ids, original_paths, originals_view,
    pending_capture, photos_view, FingerprintView, OriginalFingerprint, OriginalRecord,
    OriginalView, PhotoRecord, PhotoView, ScanTables,
};
use crate::text::{
    contains_text, last_index, lemma_last_index, lemma_last_index_found, lemma_texts_push,
    same_text, texts,
};
use vstd::prelude::*;
use vstd::string::*;

verus! {

/// A confirmed relocation of an Original File: its new Location, none if the
/// text that was given is no Location, the kind that the name there tells, and
/// the facts that were observed of the file. A default-state occupier of the
/// Location gives way only where `retire_destination` says so.
#[derive(Clone, Debug, PartialEq, Eq)]
pub struct RequestedRelocation {
    pub original_id: String,
    pub location: Option<String>,
    pub named_kind: Option<OriginalKind>,
    pub size: u64,
    pub mtime_ms: Real,
    pub retire_destination: bool,
}

/// What a batch of confirmed relocations did.
#[derive(Clone, Copy, Debug, PartialEq, Eq, Structural)]
pub struct AppliedRelocations {
    pub relocated_photos: u64,
    pub unavailable_photos: u64,
}

/// The tables once a batch is applied, and what it did.
#[derive(Clone, Debug, PartialEq, Eq)]
pub struct ManualRecovery {
    pub tables: ScanTables,
    pub applied: AppliedRelocations,
}

/// The Original Files of a batch.
pub open spec fn requested_ids(relocations: Seq<RequestedRelocation>) -> Seq<Seq<char>> {
    Seq::new(relocations.len(), |i: int| relocations[i].original_id@)
}

/// The Original Files of a list of Photos.
pub open spec fn photo_owners(rows: Seq<PhotoView>) -> Seq<Seq<char>> {
    Seq::new(rows.len(), |i: int| rows[i].original_id)
}

/// The first index at which a text stands that stood before.
pub open spec fn first_repeat(list: Seq<Seq<char>>) -> Option<int>
    decreases list.len(),
{
    if list.len() == 0 {
        None
    } else {
        match first_repeat(list.drop_last()) {
            Some(i) => Some(i),
            None => if list.drop_last().contains(list.last()) {
                Some(list.len() - 1)
            } else {
                None
            },
        }
    }
}

proof fn lemma_first_repeat_stopped(list: Seq<Seq<char>>, n: int)
    requires
        0 <= n <= list.len(),
        first_repeat(list.take(n)) is Some,
    ensures
        first_repeat(list) == first_repeat(list.take(n)),
    decreases list.len(),
{
    if n == list.len() {
        assert(list.take(n) =~= list);
    } else {
        assert(list.drop_last().take(n) =~= list.take(n));
        lemma_first_repeat_stopped(list.drop_last(), n);
    }
}

pub proof fn lemma_no_repeat(list: Seq<Seq<char>>)
    requires
        first_repeat(list) is None,
    ensures
        list.no_duplicates(),
    decreases list.len(),
{
    if list.len() > 0 {
        let front = list.drop_last();
        lemma_no_repeat(front);
        assert forall|i: int, j: int|
            0 <= i < list.len() && 0 <= j < list.len() && i != j implies list[i] != list[j] by {
            if i < front.len() && j < front.len() {
                assert(front[i] == list[i] && front[j] == list[j]);
            } else if i < front.len() {
                assert(front.contains(front[i]));
            } else {
                assert(front.contains(front[j]));
            }
        }
    }
}

fn list_requested(relocations: &Vec<RequestedRelocation>) -> (ids: Vec<String>)
    ensures
        texts(ids@) == requested_ids(relocations@),
{
    let ghost all = requested_ids(relocations@);
    let mut ids: Vec<String> = Vec::new();
    let mut i: usize = 0;
    while i < relocations.len()
        invariant
            i <= relocations.len(),
            all == requested_ids(relocations@),
            texts(ids@) == all.take(i as int),
        decreases relocations.len() - i,
    {
        let id: String = relocations[i].original_id.clone();
        proof {
            lemma_texts_push(ids@, id);
            assert(all.take(i + 1) =~= all.take(i as int).push(id@));
        }
        ids.push(id);
        i = i + 1;
    }
    assert(all.take(all.len() as int) =~= all);
    ids
}

fn find_repeat(list: &Vec<String>) -> (index: Option<usize>)
    ensures
        match index {
            Some(i) => first_repeat(texts(list@)) == Some(i as int) && i < list.len(),
            None => first_repeat(texts(list@)) is None,
        },
{
    let ghost all = texts(list@);
    let mut i: usize = 0;
    assert(all.take(0) =~= Seq::<Seq<char>>::empty());
    while i < list.len()
        invariant
            i <= list.len(),
            all == texts(list@),
            first_repeat(all.take(i as int)) is None,
        decreases list.len() - i,
    {
        proof {
            assert(all.take(i + 1).drop_last() =~= all.take(i as int));
            assert(all.take(i + 1).last() == list@[i as int]@);
        }
        let mut j: usize = 0;
        while j < i
            invariant
                j <= i,
                i < list.len(),
                all == texts(list@),
                first_repeat(all.take(i as int)) is None,
                all.take(i + 1).drop_last() == all.take(i as int),
                all.take(i + 1).last() == list@[i as int]@,
                forall|k: int| 0 <= k < j ==> all[k] != list@[i as int]@,
            decreases i - j,
        {
            assert(all[j as int] == list@[j as int]@);
            if same_text(&list[j], &list[i]) {
                proof {
                    assert(all.take(i as int)[j as int] == list@[i as int]@);
                    lemma_first_repeat_stopped(all, i + 1);
                }
                return Some(i);
            }
            j = j + 1;
        }
        assert(!all.take(i as int).contains(list@[i as int]@));
        i = i + 1;
    }
    assert(all.take(all.len() as int) =~= all);
    None
}

/// A refusal of a batch for one of its relocations.
pub open spec fn mapping_refused(
    relocation: RequestedRelocation,
    reason: &'static str,
) -> PersistenceError {
    PersistenceError::InvalidRecoveryMapping { original_id: relocation.original_id, reason }
}

fn refuse_mapping(relocation: &RequestedRelocation, reason: &'static str) -> (error:
    PersistenceError)
    ensures
        error == mapping_refused(*relocation, reason),
{
    PersistenceError::InvalidRecoveryMapping {
        original_id: relocation.original_id.clone(),
        reason,
    }
}

/// Whether an earlier relocation of a batch has the same Location.
pub open spec fn destination_repeats(relocations: Seq<RequestedRelocation>, k: int) -> bool {
    exists|j: int|
        0 <= j < k && (#[trigger] relocations[j]).location is Some && relocations[j].location->0@
            == relocations[k].location->0@
}

/// The fingerprints without that of an Original File.
pub open spec fn without_fingerprint(rows: Seq<FingerprintView>, id: Seq<char>) -> Seq<
    FingerprintView,
>
    decreases rows.len(),
{
    if rows.len() == 0 {
        Seq::empty()
    } else {
        let before = without_fingerprint(rows.drop_last(), id);
        if rows.last().original_id == id {
            before
        } else {
            before.push(rows.last())
        }
    }
}

/// The tables without the Original File at an index, its fingerprint and its
/// Photo. A Photo about which something was decided, that has saved edits or is
/// in an Album is not given up, and one that an Export refers to cannot be.
pub open spec fn retired(
    tables: TablesView,
    relocation: RequestedRelocation,
    index: int,
    members: Seq<Seq<char>>,
    exported: Seq<Seq<char>>,
) -> Result<TablesView, PersistenceError> {
    let owner = tables.originals[index].id;
    let without_original = TablesView {
        originals: tables.originals.remove(index),
        fingerprints: without_fingerprint(tables.fingerprints, owner),
        ..tables
    };
    match last_index(photo_owners(tables.photos), owner) {
        None => Ok(without_original),
        Some(p) => {
            let photo = tables.photos[p];
            if photo.rating != 0 || photo.selection_state != SelectionState::Undecided
                || photo.has_saved_edits || members.contains(photo.id) {
                Err(mapping_refused(relocation, "occupied"))
            } else if exported.contains(photo.id) {
                Err(PersistenceError::Storage)
            } else {
                Ok(TablesView { photos: tables.photos.remove(p), ..without_original })
            }
        },
    }
}

/// The tables once one relocation of a batch is admitted, or why the batch is
/// refused.
pub open spec fn admitted(
    tables: TablesView,
    relocations: Seq<RequestedRelocation>,
    k: int,
    members: Seq<Seq<char>>,
    exported: Seq<Seq<char>>,
) -> Result<TablesView, PersistenceError> {
    let relocation = relocations[k];
    match relocation.location {
        None => Err(mapping_refused(relocation, "invalid-location")),
        Some(to) => if destination_repeats(relocations, k) {
            Err(mapping_refused(relocation, "colliding"))
        } else {
            match last_index(original_ids(tables.originals), relocation.original_id@) {
                None => Err(mapping_refused(relocation, "stale")),
                Some(o) => if tables.originals[o].available {
                    Err(mapping_refused(relocation, "stale"))
                } else if relocation.named_kind != Some(tables.originals[o].kind) {
                    Err(mapping_refused(relocation, "kind-mismatch"))
                } else {
                    match last_index(original_paths(tables.originals), to@) {
                        None => Ok(tables),
                        Some(w) => {
                            let owner = tables.originals[w].id;
                            if owner == relocation.original_id@ || requested_ids(
                                relocations,
                            ).contains(owner) {
                                Ok(tables)
                            } else if !relocation.retire_destination {
                                Err(mapping_refused(relocation, "occupied"))
                            } else {
                                retired(tables, relocation, w, members, exported)
                            }
                        },
                    }
                },
            }
        },
    }
}

/// The tables once the first relocations of a batch are admitted.
pub open spec fn all_admitted(
    tables: TablesView,
    relocations: Seq<RequestedRelocation>,
    n: nat,
    members: Seq<Seq<char>>,
    exported: Seq<Seq<char>>,
) -> Result<TablesView, PersistenceError>
    decreases n,
{
    if n == 0 {
        Ok(tables)
    } else {
        match all_admitted(tables, relocations, (n - 1) as nat, members, exported) {
            Err(error) => Err(error),
            Ok(before) => admitted(before, relocations, n - 1, members, exported),
        }
    }
}

/// A fingerprint with the facts that were observed at a new Location.
pub open spec fn refreshed(row: FingerprintView, relocation: RequestedRelocation) -> FingerprintView {
    if row.original_id == relocation.original_id@ {
        FingerprintView { size: relocation.size, mtime_ms: relocation.mtime_ms, ..row }
    } else {
        row
    }
}

/// The tables once one relocation is bound: the Original File is available at
/// its new Location with the observed facts and no capture fact, its Photo is
/// available and to be inspected again, and its fingerprint describes the
/// observed revision.
pub open spec fn bound(tables: TablesView, relocation: RequestedRelocation) -> Result<
    TablesView,
    PersistenceError,
> {
    let to = relocation.location->0@;
    if relocation.size > i64::MAX || !nonnegative(relocation.mtime_ms) {
        Err(PersistenceError::Storage)
    } else {
        match (
            last_index(original_ids(tables.originals), relocation.original_id@),
            last_index(photo_owners(tables.photos), relocation.original_id@),
        ) {
            (Some(o), Some(p)) => Ok(
                TablesView {
                    originals: tables.originals.update(
                        o,
                        OriginalView {
                            relative_path: to,
                            size: relocation.size,
                            mtime_ms: relocation.mtime_ms,
                            available: true,
                            error_category: None,
                            error_message: None,
                            capture: pending_capture(),
                            ..tables.originals[o]
                        },
                    ),
                    photos: tables.photos.update(
                        p,
                        PhotoView {
                            available: true,
                            preview_state: PreviewState::InspectionPending,
                            preview_source_revision: None,
                            preview_width: None,
                            preview_height: None,
                            cache_revision: None,
                            sort_path: to,
                            ..tables.photos[p]
                        },
                    ),
                    fingerprints: Seq::new(
                        tables.fingerprints.len(),
                        |i: int| refreshed(tables.fingerprints[i], relocation),
                    ),
                    published: tables.published,
                },
            ),
            _ => Err(mapping_refused(relocation, "stale")),
        }
    }
}

/// The tables once the first relocations of a batch are bound.
pub open spec fn all_bound(
    tables: TablesView,
    relocations: Seq<RequestedRelocation>,
    n: nat,
) -> Result<TablesView, PersistenceError>
    decreases n,
{
    if n == 0 {
        Ok(tables)
    } else {
        match all_bound(tables, relocations, (n - 1) as nat) {
            Err(error) => Err(error),
            Ok(before) => bound(before, relocations[n - 1]),
        }
    }
}

/// How many Photos are unavailable.
pub open spec fn unavailable_count(rows: Seq<PhotoView>) -> nat
    decreases rows.len(),
{
    if rows.len() == 0 {
        0
    } else {
        unavailable_count(rows.drop_last()) + if rows.last().available {
            0nat
        } else {
            1nat
        }
    }
}

/// The tables once a batch of confirmed relocations is applied, or why it is
/// refused.
pub open spec fn manually_relocated(
    tables: TablesView,
    relocations: Seq<RequestedRelocation>,
    members: Seq<Seq<char>>,
    exported: Seq<Seq<char>>,
) -> Result<TablesView, PersistenceError> {
    if relocations.len() == 0 {
        Err(PersistenceError::InvalidRecovery)
    } else {
        match first_repeat(requested_ids(relocations)) {
            Some(i) => Err(mapping_refused(relocations[i], "colliding")),
            None => match all_admitted(tables, relocations, relocations.len(), members, exported) {
                Err(error) => Err(error),
                Ok(free) => all_bound(free, relocations, relocations.len()),
            },
        }
    }
}

proof fn lemma_admission_stopped(
    tables: TablesView,
    relocations: Seq<RequestedRelocation>,
    n: nat,
    m: nat,
    members: Seq<Seq<char>>,
    exported: Seq<Seq<char>>,
)
    requires
        n <= m,
        all_admitted(tables, relocations, n, members, exported) is Err,
    ensures
        all_admitted(tables, relocations, m, members, exported) == all_admitted(
            tables,
            relocations,
            n,
            members,
            exported,
        ),
    decreases m,
{
    if n < m {
        lemma_admission_stopped(tables, relocations, n, (m - 1) as nat, members, exported);
    }
}

proof fn lemma_binding_stopped(
    tables: TablesView,
    relocations: Seq<RequestedRelocation>,
    n: nat,
    m: nat,
)
    requires
        n <= m,
        all_bound(tables, relocations, n) is Err,
    ensures
        all_bound(tables, relocations, m) == all_bound(tables, relocations, n),
    decreases m,
{
    if n < m {
        lemma_binding_stopped(tables, relocations, n, (m - 1) as nat);
    }
}

fn index_of_owner(rows: &Vec<PhotoRecord>, id: &String) -> (index: Option<usize>)
    ensures
        match index {
            Some(i) => last_index(photo_owners(photos_view(rows@)), id@) == Some(i as int) && i
                < rows.len(),
            None => last_index(photo_owners(photos_view(rows@)), id@) is None,
        },
{
    let ghost owners = photo_owners(photos_view(rows@));
    let mut i: usize = rows.len();
    while i > 0
        invariant
            i <= rows.len(),
            owners == photo_owners(photos_view(rows@)),
            forall|j: int| i <= j < rows.len() ==> owners[j] != id@,
        decreases i,
    {
        i = i - 1;
        assert(owners[i as int] == rows@[i as int].original_id@);
        if same_text(&rows[i].original_id, id) {
            proof {
                lemma_last_index(owners, id@, i as int);
            }
            return Some(i);
        }
    }
    proof {
        lemma_last_index_found(owners, id@);
    }
    None
}

fn drop_fingerprint(rows: &Vec<OriginalFingerprint>, id: &String) -> (kept: Vec<
    OriginalFingerprint,
>)
    ensures
        fingerprints_view(kept@) == without_fingerprint(fingerprints_view(rows@), id@),
{
    let ghost all = fingerprints_view(rows@);
    let mut kept: Vec<OriginalFingerprint> = Vec::new();
    let mut i: usize = 0;
    assert(all.take(0) =~= Seq::<FingerprintView>::empty());
    assert(fingerprints_view(kept@) =~= Seq::<FingerprintView>::empty());
    while i < rows.len()
        invariant
            i <= rows.len(),
            all == fingerprints_view(rows@),
            fingerprints_view(kept@) == without_fingerprint(all.take(i as int), id@),
        decreases rows.len() - i,
    {
        proof {
            assert(all.take(i + 1).drop_last() =~= all.take(i as int));
            assert(all.take(i + 1).last() == rows@[i as int]@);
        }
        if !same_text(&rows[i].original_id, id) {
            let row: OriginalFingerprint = clone_fingerprint(&rows[i]);
            assert(fingerprints_view(kept@.push(row)) =~= fingerprints_view(kept@).push(row@));
            kept.push(row);
        }
        i = i + 1;
    }
    assert(all.take(all.len() as int) =~= all);
    kept
}

fn retire(
    tables: &mut ScanTables,
    relocation: &RequestedRelocation,
    index: usize,
    members: &Vec<String>,
    exported: &Vec<String>,
) -> (result: Result<(), PersistenceError>)
    requires
        index < old(tables).originals.len(),
    ensures
        match retired(old(tables)@, *relocation, index as int, texts(members@), texts(exported@)) {
            Ok(after) => result is Ok && final(tables)@ == after,
            Err(error) => result == Err::<(), PersistenceError>(error),
        },
{
    let ghost before = tables@;
    let owner: String = tables.originals[index].id.clone();
    assert(before.originals[index as int].id == owner@);
    match index_of_owner(&tables.photos, &owner) {
        Some(p) => {
            let photo: &PhotoRecord = &tables.photos[p];
            assert(before.photos[p as int] == photo@);
            if photo.rating != 0 || photo.selection_state != SelectionState::Undecided
                || photo.has_saved_edits || contains_text(members, &photo.id) {
                return Err(refuse_mapping(relocation, "occupied"));
            }
            if contains_text(exported, &photo.id) {
                return Err(PersistenceError::Storage);
            }
            assert(photos_view(tables.photos@.remove(p as int)) =~= before.photos.remove(p as int));
            tables.photos.remove(p);
        },
        None => {},
    }
    tables.fingerprints = drop_fingerprint(&tables.fingerprints, &owner);
    assert(originals_view(tables.originals@.remove(index as int)) =~= before.originals.remove(
        index as int,
    ));
    tables.originals.remove(index);
    Ok(())
}

fn let_in(
    tables: &mut ScanTables,
    relocations: &Vec<RequestedRelocation>,
    k: usize,
    requested: &Vec<String>,
    members: &Vec<String>,
    exported: &Vec<String>,
) -> (result: Result<(), PersistenceError>)
    requires
        k < relocations.len(),
        texts(requested@) == requested_ids(relocations@),
    ensures
        match admitted(old(tables)@, relocations@, k as int, texts(members@), texts(exported@)) {
            Ok(after) => result is Ok && final(tables)@ == after,
            Err(error) => result == Err::<(), PersistenceError>(error),
        },
{
    let relocation: &RequestedRelocation = &relocations[k];
    let to: &String = match &relocation.location {
        Some(to) => to,
        None => {
            return Err(refuse_mapping(relocation, "invalid-location"));
        },
    };
    let mut j: usize = 0;
    while j < k
        invariant
            j <= k < relocations.len(),
            *relocation == relocations@[k as int],
            relocation.location == Some(*to),
            forall|i: int|
                0 <= i < j ==> !((#[trigger] relocations@[i]).location is Some
                    && relocations@[i].location->0@ == to@),
            texts(requested@) == requested_ids(relocations@),
            tables@ == old(tables)@,
        decreases k - j,
    {
        match &relocations[j].location {
            Some(other) => {
                if same_text(other, to) {
                    assert(destination_repeats(relocations@, k as int));
                    return Err(refuse_mapping(relocation, "colliding"));
                }
            },
            None => {},
        }
        j = j + 1;
    }
    assert(!destination_repeats(relocations@, k as int));
    match index_of_original(&tables.originals, &relocation.original_id) {
        Some(o) => {
            assert(tables@.originals[o as int] == tables.originals@[o as int]@);
            if tables.originals[o].available {
                return Err(refuse_mapping(relocation, "stale"));
            }
            let fits: bool = match relocation.named_kind {
                Some(kind) => kind == tables.originals[o].kind,
                None => false,
            };
            if !fits {
                return Err(refuse_mapping(relocation, "kind-mismatch"));
            }
        },
        None => {
            return Err(refuse_mapping(relocation, "stale"));
        },
    }
    match index_of_location(&tables.originals, to) {
        Some(w) => {
            assert(tables@.originals[w as int].id == tables.originals@[w as int].id@);
            if same_text(&tables.originals[w].id, &relocation.original_id) || contains_text(
                requested,
                &tables.originals[w].id,
            ) {
                return Ok(());
            }
            if !relocation.retire_destination {
                return Err(refuse_mapping(relocation, "occupied"));
            }
            retire(tables, relocation, w, members, exported)
        },
        None => Ok(()),
    }
}

fn refresh_fingerprints(
    rows: &Vec<OriginalFingerprint>,
    relocation: &RequestedRelocation,
) -> (after: Vec<OriginalFingerprint>)
    ensures
        fingerprints_view(after@) == Seq::new(
            rows@.len(),
            |i: int| refreshed(fingerprints_view(rows@)[i], *relocation),
        ),
{
    let ghost goal = Seq::new(
        rows@.len(),
        |i: int| refreshed(fingerprints_view(rows@)[i], *relocation),
    );
    let mut after: Vec<OriginalFingerprint> = Vec::new();
    let mut i: usize = 0;
    while i < rows.len()
        invariant
            i <= rows.len(),
            goal == Seq::new(
                rows@.len(),
                |i: int| refreshed(fingerprints_view(rows@)[i], *relocation),
            ),
            fingerprints_view(after@) == goal.take(i as int),
        decreases rows.len() - i,
    {
        let mut row: OriginalFingerprint = clone_fingerprint(&rows[i]);
        if same_text(&rows[i].original_id, &relocation.original_id) {
            row.size = relocation.size;
            row.mtime_ms = relocation.mtime_ms;
        }
        proof {
            assert(row@ == goal[i as int]);
            assert(fingerprints_view(after@.push(row)) =~= fingerprints_view(after@).push(row@));
            assert(goal.take(i + 1) =~= goal.take(i as int).push(goal[i as int]));
        }
        after.push(row);
        i = i + 1;
    }
    assert(goal.take(goal.len() as int) =~= goal);
    after
}

fn bind(tables: &mut ScanTables, relocation: &RequestedRelocation) -> (result: Result<
    (),
    PersistenceError,
>)
    requires
        relocation.location is Some,
    ensures
        match bound(old(tables)@, *relocation) {
            Ok(after) => result is Ok && final(tables)@ == after,
            Err(error) => result == Err::<(), PersistenceError>(error),
        },
{
    let ghost before = tables@;
    if relocation.size > i64::MAX as u64 || !relocation.mtime_ms.is_nonnegative() {
        return Err(PersistenceError::Storage);
    }
    let to: String = match &relocation.location {
        Some(to) => to.clone(),
        None => String::new(),
    };
    let o: usize = match index_of_original(&tables.originals, &relocation.original_id) {
        Some(o) => o,
        None => {
            return Err(refuse_mapping(relocation, "stale"));
        },
    };
    let p: usize = match index_of_owner(&tables.photos, &relocation.original_id) {
        Some(p) => p,
        None => {
            return Err(refuse_mapping(relocation, "stale"));
        },
    };
    let mut original: OriginalRecord = clone_original(&tables.originals[o]);
    original.relative_path = to.clone();
    original.size = relocation.size;
    original.mtime_ms = relocation.mtime_ms;
    original.available = true;
    original.error_category = None;
    original.error_message = None;
    original.capture = new_pending_capture();
    let mut photo: PhotoRecord = clone_photo(&tables.photos[p]);
    photo.available = true;
    photo.preview_state = PreviewState::InspectionPending;
    photo.preview_source_revision = None;
    photo.preview_width = None;
    photo.preview_height = None;
    photo.cache_revision = None;
    photo.sort_path = to;
    tables.fingerprints = refresh_fingerprints(&tables.fingerprints, relocation);
    assert(originals_view(tables.originals@.update(o as int, original))
        =~= before.originals.update(o as int, original@));
    assert(photos_view(tables.photos@.update(p as int, photo)) =~= before.photos.update(
        p as int,
        photo@,
    ));
    tables.originals[o] = original;
    tables.photos[p] = photo;
    proof {
        let after = bound(before, *relocation)->Ok_0;
        assert(tables@.originals =~= after.originals);
        assert(tables@.photos =~= after.photos);
        assert(tables@.fingerprints =~= after.fingerprints);
    }
    Ok(())
}

fn count_unavailable(rows: &Vec<PhotoRecord>) -> (count: u64)
    ensures
        count == unavailable_count(photos_view(rows@)),
{
    let ghost all = photos_view(rows@);
    let mut count: u64 = 0;
    let mut i: usize = 0;
    assert(all.take(0) =~= Seq::<PhotoView>::empty());
    while i < rows.len()
        invariant
            i <= rows.len(),
            all == photos_view(rows@),
            count <= i,
            count == unavailable_count(all.take(i as int)),
        decreases rows.len() - i,
    {
        proof {
            assert(all.take(i + 1).drop_last() =~= all.take(i as int));
            assert(all.take(i + 1).last() == rows@[i as int]@);
        }
        if !rows[i].available {
            count = count + 1;
        }
        i = i + 1;
    }
    assert(all.take(all.len() as int) =~= all);
    count
}

fn clone_tables(tables: &ScanTables) -> (copy: ScanTables)
    ensures
        copy@ == tables@,
{
    let mut originals: Vec<OriginalRecord> = Vec::new();
    let mut i: usize = 0;
    while i < tables.originals.len()
        invariant
            i <= tables.originals.len(),
            originals_view(originals@) == tables@.originals.take(i as int),
        decreases tables.originals.len() - i,
    {
        let row: OriginalRecord = clone_original(&tables.originals[i]);
        proof {
            assert(row@ == tables@.originals[i as int]);
            assert(originals_view(originals@.push(row)) =~= originals_view(originals@).push(row@));
            assert(tables@.originals.take(i + 1) =~= tables@.originals.take(i as int).push(row@));
        }
        originals.push(row);
        i = i + 1;
    }
    let mut photos: Vec<PhotoRecord> = Vec::new();
    let mut j: usize = 0;
    while j < tables.photos.len()
        invariant
            j <= tables.photos.len(),
            photos_view(photos@) == tables@.photos.take(j as int),
        decreases tables.photos.len() - j,
    {
        let row: PhotoRecord = clone_photo(&tables.photos[j]);
        proof {
            assert(row@ == tables@.photos[j as int]);
            assert(photos_view(photos@.push(row)) =~= photos_view(photos@).push(row@));
            assert(tables@.photos.take(j + 1) =~= tables@.photos.take(j as int).push(row@));
        }
        photos.push(row);
        j = j + 1;
    }
    let mut fingerprints: Vec<OriginalFingerprint> = Vec::new();
    let mut k: usize = 0;
    while k < tables.fingerprints.len()
        invariant
            k <= tables.fingerprints.len(),
            fingerprints_view(fingerprints@) == tables@.fingerprints.take(k as int),
        decreases tables.fingerprints.len() - k,
    {
        let row: OriginalFingerprint = clone_fingerprint(&tables.fingerprints[k]);
        proof {
            assert(row@ == tables@.fingerprints[k as int]);
            assert(fingerprints_view(fingerprints@.push(row)) =~= fingerprints_view(
                fingerprints@,
            ).push(row@));
            assert(tables@.fingerprints.take(k + 1) =~= tables@.fingerprints.take(k as int).push(
                row@,
            ));
        }
        fingerprints.push(row);
        k = k + 1;
    }
    assert(tables@.originals.take(tables@.originals.len() as int) =~= tables@.originals);
    assert(tables@.photos.take(tables@.photos.len() as int) =~= tables@.photos);
    assert(tables@.fingerprints.take(tables@.fingerprints.len() as int) =~= tables@.fingerprints);
    ScanTables { originals, photos, fingerprints, published: tables.published }
}

/// Applies a batch of confirmed relocations as a whole or not at all. `members`
/// are the Photos that are in an Album, `exported` those that an Export refers
/// to.
pub fn apply_manual_relocations(
    tables: &ScanTables,
    relocations: &Vec<RequestedRelocation>,
    members: &Vec<String>,
    exported: &Vec<String>,
) -> (result: Result<ManualRecovery, PersistenceError>)
    ensures
        match manually_relocated(tables@, relocations@, texts(members@), texts(exported@)) {
            Ok(after) => result is Ok && result->Ok_0.tables@ == after && result->Ok_0.applied == (
            AppliedRelocations {
                relocated_photos: relocations.len() as u64,
                unavailable_photos: unavailable_count(after.photos) as u64,
            }) && unavailable_count(after.photos) <= u64::MAX,
            Err(error) => result == Err::<ManualRecovery, PersistenceError>(error),
        },
{
    if relocations.len() == 0 {
        return Err(PersistenceError::InvalidRecovery);
    }
    let requested: Vec<String> = list_requested(relocations);
    assert(requested.len() == texts(requested@).len());
    match find_repeat(&requested) {
        Some(i) => {
            return Err(refuse_mapping(&relocations[i], "colliding"));
        },
        None => {},
    }
    let mut next: ScanTables = clone_tables(tables);
    let mut i: usize = 0;
    while i < relocations.len()
        invariant
            i <= relocations.len(),
            texts(requested@) == requested_ids(relocations@),
            all_admitted(
                tables@,
                relocations@,
                i as nat,
                texts(members@),
                texts(exported@),
            ) == Ok::<TablesView, PersistenceError>(next@),
            forall|j: int| 0 <= j < i ==> (#[trigger] relocations@[j]).location is Some,
            first_repeat(requested_ids(relocations@)) is None,
            relocations.len() > 0,
        decreases relocations.len() - i,
    {
        match let_in(&mut next, relocations, i, &requested, members, exported) {
            Ok(_) => {},
            Err(error) => {
                proof {
                    lemma_admission_stopped(
                        tables@,
                        relocations@,
                        (i + 1) as nat,
                        relocations@.len(),
                        texts(members@),
                        texts(exported@),
                    );
                }
                return Err(error);
            },
        }
        i = i + 1;
    }
    let ghost free = next@;
    let mut k: usize = 0;
    while k < relocations.len()
        invariant
            k <= relocations.len(),
            all_admitted(
                tables@,
                relocations@,
                relocations@.len(),
                texts(members@),
                texts(exported@),
            ) == Ok::<TablesView, PersistenceError>(free),
            all_bound(free, relocations@, k as nat) == Ok::<TablesView, PersistenceError>(next@),
            forall|j: int|
                0 <= j < relocations.len() ==> (#[trigger] relocations@[j]).location is Some,
            first_repeat(requested_ids(relocations@)) is None,
            relocations.len() > 0,
        decreases relocations.len() - k,
    {
        match bind(&mut next, &relocations[k]) {
            Ok(_) => {},
            Err(error) => {
                proof {
                    lemma_binding_stopped(free, relocations@, (k + 1) as nat, relocations@.len());
                }
                return Err(error);
            },
        }
        k = k + 1;
    }
    let unavailable_photos: u64 = count_unavailable(&next.photos);
    Ok(
        ManualRecovery {
            tables: next,
            applied: AppliedRelocations {
                relocated_photos: relocations.len() as u64,
                unavailable_photos,
            },
        },
    )
}

} // verus!
