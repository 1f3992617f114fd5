//! What every scan keeps.
use crate::binary::same_real;
use crate::codec::{CaptureMetadataState, PreviewState, SelectionState};
use crate::error::PersistenceError;
use crate::manual_recovery::photo_owners;
use crate::scan::{
    all_moved, all_unavailable, current_fingerprints, final_path, final_paths, fingerprint_stored,
    fingerprints_stored, found_row, identities, known_id, original_stored, originals_stored,
    photo_stored, photos_stored, relocation_fits, relocations_fit, scan_applied, scan_identities,
    settled_id, stale, storable, ReconciledPhoto, ScanIdentities, TablesView,
};
use crate::scan_state::{
    discovered_paths, fingerprint_ids, original_ids, original_paths, photo_ids, relocation_ids,
    relocation_paths,
    DiscoveredFingerprint, DiscoveredOriginal, FingerprintView, OriginalRecord, OriginalView,
    PhotoView, ScanRecoveryPlan, ScanRelocation, ScanTables,
};
use crate::text::{
    last_index, lemma_last_index, lemma_last_index_found, opt_text, stored_length, texts,
};
use vstd::prelude::*;

verus! {

/// What the Original Files hold once the first discoveries are stored: the ones
/// that were there keep their place, identity and Location, and identities and
/// Locations stay apart.
pub open spec fn extends(before: Seq<OriginalView>, after: Seq<OriginalView>) -> bool {
    &&& before.len() <= after.len()
    &&& forall|i: int|
        0 <= i < before.len() ==> #[trigger] after[i].id == before[i].id && after[i].relative_path
            == before[i].relative_path
}

proof fn lemma_stored_extends(
    rows: Seq<OriginalView>,
    discovered: Seq<DiscoveredOriginal>,
    ids: Seq<Seq<char>>,
    n: nat,
)
    requires
        n <= discovered.len(),
        original_ids(rows).no_duplicates(),
        original_paths(rows).no_duplicates(),
        originals_stored(rows, discovered, ids, n) is Some,
    ensures
        extends(rows, originals_stored(rows, discovered, ids, n)->0),
        original_ids(originals_stored(rows, discovered, ids, n)->0).no_duplicates(),
        original_paths(originals_stored(rows, discovered, ids, n)->0).no_duplicates(),
    decreases n,
{
    if n > 0 {
        lemma_stored_extends(rows, discovered, ids, (n - 1) as nat);
        let before = originals_stored(rows, discovered, ids, (n - 1) as nat)->0;
        let after = originals_stored(rows, discovered, ids, n)->0;
        let found = discovered[n - 1];
        lemma_last_index_found(original_paths(before), found.path@);
        let id = settled_id(discovered, ids, found.path@);
        assert(original_stored(before, found, id) == Some(after));
        assert forall|i: int| 0 <= i < rows.len() implies #[trigger] after[i].id == rows[i].id
            && after[i].relative_path == rows[i].relative_path by {
            assert(before[i].id == rows[i].id);
            if last_index(original_paths(before), found.path@) == Some(i) {
                assert(original_paths(before)[i] == found.path@);
            }
        }
        assert forall|i: int, j: int|
            0 <= i < after.len() && 0 <= j < after.len() && i != j implies original_ids(after)[i]
            != original_ids(after)[j] && original_paths(after)[i] != original_paths(after)[j] by {
            if i < before.len() && j < before.len() {
                assert(original_ids(before)[i] != original_ids(before)[j]);
                assert(original_paths(before)[i] != original_paths(before)[j]);
            } else if i < before.len() {
                assert(original_ids(before).contains(original_ids(before)[i]));
                assert(original_paths(before).contains(original_paths(before)[i]));
            } else {
                assert(original_ids(before).contains(original_ids(before)[j]));
                assert(original_paths(before).contains(original_paths(before)[j]));
            }
        }
    }
}

proof fn lemma_moved_apart(originals: Seq<OriginalView>, relocations: Seq<ScanRelocation>)
    requires
        original_ids(originals).no_duplicates(),
        final_paths(originals, relocations).no_duplicates(),
    ensures
        original_ids(all_moved(originals, relocations)).no_duplicates(),
        original_paths(all_moved(originals, relocations)).no_duplicates(),
{
    assert(original_ids(all_moved(originals, relocations)) =~= original_ids(originals));
    assert(original_paths(all_moved(originals, relocations)) =~= final_paths(
        originals,
        relocations,
    ));
}

/// A scan keeps every Original File: each one keeps its identity and is where
/// its relocation put it, else where it was. No two share an identity or a
/// Location afterwards.
pub proof fn law_scan_keeps_originals_apart(
    tables: TablesView,
    discovered: Seq<DiscoveredOriginal>,
    ids: Seq<Seq<char>>,
    reconciled: Seq<ReconciledPhoto>,
    relocations: Seq<ScanRelocation>,
    fingerprints: Seq<DiscoveredFingerprint>,
)
    requires
        original_ids(tables.originals).no_duplicates(),
        scan_applied(tables, discovered, ids, reconciled, relocations, fingerprints) is Ok,
    ensures
        ({
            let after = scan_applied(
                tables,
                discovered,
                ids,
                reconciled,
                relocations,
                fingerprints,
            )->Ok_0.originals;
            &&& tables.originals.len() <= after.len()
            &&& forall|i: int|
                0 <= i < tables.originals.len() ==> #[trigger] after[i].id
                    == tables.originals[i].id && after[i].relative_path == final_path(
                    tables.originals[i],
                    relocations,
                )
            &&& original_ids(after).no_duplicates()
            &&& original_paths(after).no_duplicates()
        }),
{
    let rows = all_moved(tables.originals, relocations);
    lemma_moved_apart(tables.originals, relocations);
    lemma_stored_extends(rows, discovered, ids, discovered.len());
    let after = originals_stored(rows, discovered, ids, discovered.len())->0;
    assert forall|i: int| 0 <= i < tables.originals.len() implies #[trigger] after[i].id
        == tables.originals[i].id && after[i].relative_path == final_path(
        tables.originals[i],
        relocations,
    ) by {
        assert(rows[i].id == tables.originals[i].id);
    }
}

/// A stored row tells what was discovered at its Location, and nothing found
/// there makes it unavailable.
pub open spec fn tells(row: OriginalView, discovered: Seq<DiscoveredOriginal>) -> bool {
    match last_index(discovered_paths(discovered), row.relative_path) {
        Some(k) => row == found_row(row.id, discovered[k]),
        None => !row.available,
    }
}

proof fn lemma_paths_push(discovered: Seq<DiscoveredOriginal>, n: int, path: Seq<char>)
    requires
        0 <= n < discovered.len(),
    ensures
        last_index(discovered_paths(discovered.take(n + 1)), path) == if discovered[n].path@
            == path {
            Some(n)
        } else {
            last_index(discovered_paths(discovered.take(n)), path)
        },
{
    let longer = discovered_paths(discovered.take(n + 1));
    assert(longer.drop_last() =~= discovered_paths(discovered.take(n)));
    assert(longer.last() == discovered[n].path@);
}

proof fn lemma_stored_tells(
    rows: Seq<OriginalView>,
    discovered: Seq<DiscoveredOriginal>,
    ids: Seq<Seq<char>>,
    n: nat,
)
    requires
        n <= discovered.len(),
        original_ids(rows).no_duplicates(),
        original_paths(rows).no_duplicates(),
        forall|i: int| 0 <= i < rows.len() ==> !(#[trigger] rows[i]).available,
        originals_stored(rows, discovered, ids, n) is Some,
    ensures
        ({
            let after = originals_stored(rows, discovered, ids, n)->0;
            &&& forall|i: int|
                0 <= i < after.len() ==> tells(#[trigger] after[i], discovered.take(n as int))
            &&& forall|k: int|
                0 <= k < n ==> original_paths(after).contains(#[trigger] discovered[k].path@)
        }),
    decreases n,
{
    if n == 0 {
        assert(discovered_paths(discovered.take(0)) =~= Seq::<Seq<char>>::empty());
    } else {
        let m = (n - 1) as nat;
        lemma_stored_tells(rows, discovered, ids, m);
        lemma_stored_extends(rows, discovered, ids, m);
        lemma_stored_extends(rows, discovered, ids, n);
        let before = originals_stored(rows, discovered, ids, m)->0;
        let after = originals_stored(rows, discovered, ids, n)->0;
        let found = discovered[n - 1];
        let id = settled_id(discovered, ids, found.path@);
        let place = last_index(original_paths(before), found.path@);
        lemma_last_index_found(original_paths(before), found.path@);
        assert(original_stored(before, found, id) == Some(after));
        assert forall|i: int| 0 <= i < after.len() implies tells(
            #[trigger] after[i],
            discovered.take(n as int),
        ) by {
            lemma_paths_push(discovered, n - 1, after[i].relative_path);
            if i < before.len() && place != Some(i) {
                assert(after[i] == before[i]);
                assert(tells(before[i], discovered.take(m as int)));
                if before[i].relative_path == found.path@ {
                    assert(original_paths(before)[i] == found.path@);
                    assert(original_paths(before)[place->0] == found.path@);
                }
                let k = last_index(discovered_paths(discovered.take(m as int)), after[i].relative_path);
                lemma_last_index_found(
                    discovered_paths(discovered.take(m as int)),
                    after[i].relative_path,
                );
            } else {
                assert(after[i] == found_row(after[i].id, found));
                assert(discovered.take(n as int)[n - 1] == found);
            }
        }
        assert forall|k: int| 0 <= k < n implies original_paths(after).contains(
            #[trigger] discovered[k].path@,
        ) by {
            if k < m {
                assert(original_paths(before).contains(discovered[k].path@));
                let i = choose|i: int|
                    0 <= i < before.len() && original_paths(before)[i] == discovered[k].path@;
                assert(original_paths(after)[i] == discovered[k].path@);
            } else {
                match place {
                    Some(i) => assert(original_paths(after)[i] == found.path@),
                    None => assert(original_paths(after)[before.len() as int] == found.path@),
                }
            }
        }
    }
}

/// After a scan each discovered Location is stored with what was found there
/// last, and every other Original File is unavailable.
pub proof fn law_scan_tells_what_was_found(
    tables: TablesView,
    discovered: Seq<DiscoveredOriginal>,
    ids: Seq<Seq<char>>,
    reconciled: Seq<ReconciledPhoto>,
    relocations: Seq<ScanRelocation>,
    fingerprints: Seq<DiscoveredFingerprint>,
)
    requires
        original_ids(tables.originals).no_duplicates(),
        scan_applied(tables, discovered, ids, reconciled, relocations, fingerprints) is Ok,
    ensures
        ({
            let after = scan_applied(
                tables,
                discovered,
                ids,
                reconciled,
                relocations,
                fingerprints,
            )->Ok_0.originals;
            &&& forall|i: int| 0 <= i < after.len() ==> tells(#[trigger] after[i], discovered)
            &&& forall|k: int|
                0 <= k < discovered.len() ==> original_paths(after).contains(
                    #[trigger] discovered[k].path@,
                )
        }),
{
    let rows = all_moved(tables.originals, relocations);
    lemma_moved_apart(tables.originals, relocations);
    lemma_stored_tells(rows, discovered, ids, discovered.len());
    assert(discovered.take(discovered.len() as int) =~= discovered);
}

/// What was decided about a Photo.
pub open spec fn same_decisions(left: PhotoView, right: PhotoView) -> bool {
    left.id == right.id && left.selection_state == right.selection_state && left.rating
        == right.rating && left.has_saved_edits == right.has_saved_edits && left.removed
        == right.removed
}

/// A Photo about which nothing was decided.
pub open spec fn undecided(photo: PhotoView) -> bool {
    photo.selection_state == SelectionState::Undecided && photo.rating == 0
        && !photo.has_saved_edits && !photo.removed
}

proof fn lemma_photos_keep_decisions(
    rows: Seq<PhotoView>,
    originals: Seq<OriginalView>,
    reconciled: Seq<ReconciledPhoto>,
)
    requires
        photos_stored(rows, originals, reconciled) is Some,
    ensures
        ({
            let after = photos_stored(rows, originals, reconciled)->0;
            &&& rows.len() <= after.len()
            &&& forall|i: int| 0 <= i < rows.len() ==> same_decisions(#[trigger] after[i], rows[i])
            &&& forall|i: int| rows.len() <= i < after.len() ==> undecided(#[trigger] after[i])
        }),
    decreases reconciled.len(),
{
    if reconciled.len() > 0 {
        lemma_photos_keep_decisions(rows, originals, reconciled.drop_last());
        let before = photos_stored(rows, originals, reconciled.drop_last())->0;
        let after = photos_stored(rows, originals, reconciled)->0;
        let photo = reconciled.last();
        lemma_last_index_found(photo_ids(before), photo.id@);
        assert(photo_stored(before, originals, photo) == Some(after));
        assert forall|i: int| 0 <= i < after.len() implies (if i < rows.len() {
            same_decisions(#[trigger] after[i], rows[i])
        } else {
            undecided(after[i])
        }) by {
            if i < before.len() {
                assert(same_decisions(after[i], before[i]));
            }
        }
    }
}

/// A scan touches no decision: every stored Photo keeps its identity, its
/// selection, its rating, its saved edits and its removal, and a new Photo has
/// none of them.
pub proof fn law_scan_touches_no_decision(
    tables: TablesView,
    discovered: Seq<DiscoveredOriginal>,
    ids: Seq<Seq<char>>,
    reconciled: Seq<ReconciledPhoto>,
    relocations: Seq<ScanRelocation>,
    fingerprints: Seq<DiscoveredFingerprint>,
)
    requires
        scan_applied(tables, discovered, ids, reconciled, relocations, fingerprints) is Ok,
    ensures
        ({
            let after = scan_applied(
                tables,
                discovered,
                ids,
                reconciled,
                relocations,
                fingerprints,
            )->Ok_0.photos;
            &&& tables.photos.len() <= after.len()
            &&& forall|i: int|
                0 <= i < tables.photos.len() ==> same_decisions(
                    #[trigger] after[i],
                    tables.photos[i],
                )
            &&& forall|i: int|
                tables.photos.len() <= i < after.len() ==> undecided(#[trigger] after[i])
        }),
{
    let rows = all_unavailable(tables.photos);
    let originals = originals_stored(
        all_moved(tables.originals, relocations),
        discovered,
        ids,
        discovered.len(),
    )->0;
    lemma_photos_keep_decisions(rows, originals, reconciled);
    let after = photos_stored(rows, originals, reconciled)->0;
    assert forall|i: int| 0 <= i < tables.photos.len() implies same_decisions(
        #[trigger] after[i],
        tables.photos[i],
    ) by {
        assert(same_decisions(after[i], rows[i]));
    }
}

proof fn lemma_current_is_fresh(rows: Seq<FingerprintView>, originals: Seq<OriginalView>)
    ensures
        forall|i: int|
            0 <= i < current_fingerprints(rows, originals).len() ==> !stale(
                #[trigger] current_fingerprints(rows, originals)[i],
                originals,
            ),
    decreases rows.len(),
{
    if rows.len() > 0 {
        lemma_current_is_fresh(rows.drop_last(), originals);
        let before = current_fingerprints(rows.drop_last(), originals);
        let after = current_fingerprints(rows, originals);
        assert forall|i: int| 0 <= i < after.len() implies !stale(
            #[trigger] after[i],
            originals,
        ) by {
            if i < before.len() {
                assert(after[i] == before[i]);
            }
        }
    }
}

/// After a scan every fingerprint describes the stored revision of its Original
/// File, as long as the stored times are numbers.
pub proof fn law_fingerprints_describe_the_stored_revision(
    rows: Seq<FingerprintView>,
    originals: Seq<OriginalView>,
    fingerprints: Seq<DiscoveredFingerprint>,
)
    requires
        original_ids(originals).no_duplicates(),
        forall|i: int|
            0 <= i < originals.len() ==> same_real(
                (#[trigger] originals[i]).mtime_ms,
                originals[i].mtime_ms,
            ),
        fingerprints_stored(current_fingerprints(rows, originals), originals, fingerprints) is Ok,
    ensures
        ({
            let after = fingerprints_stored(
                current_fingerprints(rows, originals),
                originals,
                fingerprints,
            )->Ok_0;
            forall|i: int| 0 <= i < after.len() ==> !stale(#[trigger] after[i], originals)
        }),
    decreases fingerprints.len(),
{
    let start = current_fingerprints(rows, originals);
    if fingerprints.len() == 0 {
        lemma_current_is_fresh(rows, originals);
    } else {
        law_fingerprints_describe_the_stored_revision(rows, originals, fingerprints.drop_last());
        let before = fingerprints_stored(start, originals, fingerprints.drop_last())->Ok_0;
        let after = fingerprints_stored(start, originals, fingerprints)->Ok_0;
        let last = fingerprints.last();
        assert(fingerprint_stored(before, originals, last) == Ok::<
            Seq<FingerprintView>,
            PersistenceError,
        >(after));
        lemma_last_index_found(original_paths(originals), last.path@);
        let k = last_index(original_paths(originals), last.path@)->0;
        lemma_last_index_found(original_ids(originals), originals[k].id);
        lemma_last_index_found(fingerprint_ids(before), originals[k].id);
        assert(original_ids(originals)[k] == originals[k].id);
        let found = last_index(original_ids(originals), originals[k].id)->0;
        assert(found == k) by {
            assert(original_ids(originals)[found] == originals[k].id);
        }
        assert forall|i: int| 0 <= i < after.len() implies !stale(
            #[trigger] after[i],
            originals,
        ) by {
            if i < before.len() && after[i] == before[i] {
                assert(!stale(before[i], originals));
            }
        }
    }
}

/// Whether a scan turns stored tables into others.
pub open spec fn scanned(
    before: ScanTables,
    discovered: Seq<DiscoveredOriginal>,
    ids: Seq<String>,
    reconciled: Seq<ReconciledPhoto>,
    plan: ScanRecoveryPlan,
    after: ScanTables,
) -> bool {
    scan_applied(
        before@,
        discovered,
        texts(ids),
        reconciled,
        plan.relocations@,
        plan.fingerprints@,
    ) == Ok::<TablesView, PersistenceError>(after@)
}

/// Whether a stored Photo is as it was reconciled.
spec fn as_reconciled(row: PhotoView, photo: ReconciledPhoto) -> bool {
    &&& row.original_id == photo.original_id@
    &&& row.available == photo.available
    &&& photo.preserve && photo.prior is Some ==> {
        &&& row.preview_state == photo.prior->0.state
        &&& row.preview_source_revision == opt_text(photo.prior->0.source_revision)
        &&& row.preview_width == photo.prior->0.width
        &&& row.preview_height == photo.prior->0.height
        &&& row.cache_revision == opt_text(photo.prior->0.cache_revision)
    }
    &&& !photo.preserve || photo.prior is None ==> {
        &&& row.preview_source_revision is None
        &&& row.preview_width is None
        &&& row.preview_height is None
        &&& row.cache_revision is None
        &&& photo.selected_path is Some ==> row.preview_state == PreviewState::InspectionPending
        &&& photo.selected_path is None ==> row.preview_state == PreviewState::Unavailable
    }
    &&& photo.sort_path@.len() > 0 ==> row.sort_path == photo.sort_path@
    &&& photo.sort_path@.len() == 0 && photo.selected_path is Some ==> row.sort_path
        == photo.selected_path->0@
}

spec fn last_of(reconciled: Seq<ReconciledPhoto>, k: int) -> bool {
    &&& 0 <= k < reconciled.len()
    &&& forall|j: int|
        k < j < reconciled.len() ==> (#[trigger] reconciled[j]).id@ != reconciled[k].id@
}

proof fn lemma_photos_reconciled(
    rows: Seq<PhotoView>,
    originals: Seq<OriginalView>,
    reconciled: Seq<ReconciledPhoto>,
)
    requires
        photo_ids(rows).no_duplicates(),
        photos_stored(rows, originals, reconciled) is Some,
    ensures
        ({
            let after = photos_stored(rows, originals, reconciled)->0;
            &&& rows.len() <= after.len()
            &&& photo_ids(after).no_duplicates()
            &&& forall|i: int, k: int|
                0 <= i < after.len() && #[trigger] last_of(reconciled, k) && (
                #[trigger] after[i]).id == reconciled[k].id@ ==> as_reconciled(
                    after[i],
                    reconciled[k],
                )
            &&& forall|k: int|
                0 <= k < reconciled.len() ==> photo_ids(after).contains(
                    (#[trigger] reconciled[k]).id@,
                )
            &&& forall|i: int|
                0 <= i < after.len() && (forall|k: int|
                    0 <= k < reconciled.len() ==> (#[trigger] reconciled[k]).id@ != after[i].id)
                    ==> i < rows.len() && #[trigger] after[i] == rows[i]
            &&& forall|i: int| 0 <= i < rows.len() ==> (#[trigger] after[i]).id == rows[i].id
        }),
    decreases reconciled.len(),
{
    if reconciled.len() > 0 {
        let front = reconciled.drop_last();
        lemma_photos_reconciled(rows, originals, front);
        let before = photos_stored(rows, originals, front)->0;
        let after = photos_stored(rows, originals, reconciled)->0;
        let photo = reconciled.last();
        let place = last_index(photo_ids(before), photo.id@);
        lemma_last_index_found(photo_ids(before), photo.id@);
        assert(photo_stored(before, originals, photo) == Some(after));
        assert forall|i: int, j: int|
            0 <= i < after.len() && 0 <= j < after.len() && i != j implies photo_ids(after)[i]
            != photo_ids(after)[j] by {
            if i < before.len() && j < before.len() {
                assert(photo_ids(before)[i] != photo_ids(before)[j]);
            } else if i < before.len() {
                assert(photo_ids(before).contains(photo_ids(before)[i]));
            } else {
                assert(photo_ids(before).contains(photo_ids(before)[j]));
            }
        }
        assert forall|i: int, k: int|
            0 <= i < after.len() && #[trigger] last_of(reconciled, k) && (
            #[trigger] after[i]).id == reconciled[k].id@ implies as_reconciled(
            after[i],
            reconciled[k],
        ) by {
            if after[i].id == photo.id@ {
                if k < front.len() {
                    assert(reconciled[reconciled.len() - 1].id@ != reconciled[k].id@);
                }
                if place is Some {
                    assert(photo_ids(before)[place->0] == photo.id@);
                    assert(photo_ids(after)[place->0] == photo.id@);
                    assert(photo_ids(after)[i] == photo.id@);
                } else if i < before.len() {
                    assert(photo_ids(before)[i] == photo.id@);
                }
            } else {
                assert(k < front.len());
                assert(front[k] == reconciled[k]);
                assert(last_of(front, k)) by {
                    assert forall|j: int| k < j < front.len() implies (#[trigger] front[j]).id@
                        != front[k].id@ by {
                        assert(front[j] == reconciled[j]);
                    }
                }
                assert(before[i] == after[i]);
            }
        }
        assert forall|k: int| 0 <= k < reconciled.len() implies photo_ids(after).contains(
            (#[trigger] reconciled[k]).id@,
        ) by {
            if k < front.len() {
                assert(front[k] == reconciled[k]);
                assert(photo_ids(before).contains(front[k].id@));
                let i = choose|i: int|
                    0 <= i < before.len() && photo_ids(before)[i] == front[k].id@;
                assert(photo_ids(after)[i] == front[k].id@);
            } else {
                match place {
                    Some(i) => assert(photo_ids(after)[i] == photo.id@),
                    None => assert(photo_ids(after)[before.len() as int] == photo.id@),
                }
            }
        }
        assert forall|i: int|
            0 <= i < after.len() && (forall|k: int|
                0 <= k < reconciled.len() ==> (#[trigger] reconciled[k]).id@
                    != after[i].id) implies i < rows.len() && #[trigger] after[i] == rows[i] by {
            assert(reconciled[reconciled.len() - 1].id@ != after[i].id);
            assert(i < before.len() && after[i] == before[i]);
            assert forall|k: int| 0 <= k < front.len() implies (#[trigger] front[k]).id@
                != before[i].id by {
                assert(front[k] == reconciled[k]);
            }
        }
        assert forall|i: int| 0 <= i < rows.len() implies (#[trigger] after[i]).id
            == rows[i].id by {
            assert(before[i].id == rows[i].id);
            if place == Some(i) {
                assert(photo_ids(before)[i] == photo.id@);
            }
        }
    }
}

proof fn lemma_scanned_photos(
    before: ScanTables,
    discovered: Seq<DiscoveredOriginal>,
    ids: Seq<String>,
    reconciled: Seq<ReconciledPhoto>,
    plan: ScanRecoveryPlan,
    after: ScanTables,
)
    requires
        scanned(before, discovered, ids, reconciled, plan, after),
    ensures
        photos_stored(all_unavailable(before@.photos), after@.originals, reconciled) == Some(
            after@.photos,
        ),
        after@.originals.len() == after.originals.len(),
        after@.photos.len() == after.photos.len(),
        before@.photos.len() == before.photos.len(),
        photo_ids(all_unavailable(before@.photos)) == photo_ids(before@.photos),
{
    assert(photo_ids(all_unavailable(before@.photos)) =~= photo_ids(before@.photos));
}

/// A scan stores every Photo as it was reconciled, where it was reconciled last. One
/// that is to keep its Preview keeps each of its facts; any other one has none, and
/// waits for an inspection where it has a file. The stored identities are those of the
/// primary key.
pub proof fn law_scans_store_photos_as_reconciled(
    before: ScanTables,
    discovered: Seq<DiscoveredOriginal>,
    ids: Seq<String>,
    reconciled: Seq<ReconciledPhoto>,
    plan: ScanRecoveryPlan,
    after: ScanTables,
    k: int,
)
    requires
        scanned(before, discovered, ids, reconciled, plan, after),
        forall|i: int, j: int|
            0 <= i < j < before.photos.len() ==> (#[trigger] before.photos@[i]).id@ != (
            #[trigger] before.photos@[j]).id@,
        0 <= k < reconciled.len(),
        forall|j: int|
            k < j < reconciled.len() ==> (#[trigger] reconciled[j]).id@ != reconciled[k].id@,
    ensures
        exists|i: int|
            0 <= i < after.photos.len() && (#[trigger] after.photos@[i]).id@ == reconciled[k].id@,
        forall|i: int|
            0 <= i < after.photos.len() && (#[trigger] after.photos@[i]).id@ == reconciled[k].id@
                ==> {
                let row = after.photos@[i];
                let photo = reconciled[k];
                &&& row.original_id@ == photo.original_id@
                &&& row.available == photo.available
                &&& photo.preserve && photo.prior is Some ==> {
                    let prior = photo.prior->0;
                    &&& row.preview_state == prior.state
                    &&& opt_text(row.preview_source_revision) == opt_text(prior.source_revision)
                    &&& row.preview_width == prior.width
                    &&& row.preview_height == prior.height
                    &&& opt_text(row.cache_revision) == opt_text(prior.cache_revision)
                }
                &&& !photo.preserve || photo.prior is None ==> {
                    &&& row.preview_source_revision is None
                    &&& row.preview_width is None
                    &&& row.preview_height is None
                    &&& row.cache_revision is None
                    &&& photo.selected_path is Some ==> row.preview_state
                        == PreviewState::InspectionPending
                    &&& photo.selected_path is None ==> row.preview_state
                        == PreviewState::Unavailable
                }
                &&& photo.sort_path@.len() > 0 ==> row.sort_path@ == photo.sort_path@
                &&& photo.sort_path@.len() == 0 && photo.selected_path is Some ==> row.sort_path@
                    == photo.selected_path->0@
            },
{
    let rows = all_unavailable(before@.photos);
    lemma_scanned_photos(before, discovered, ids, reconciled, plan, after);
    assert(photo_ids(rows).no_duplicates()) by {
        assert forall|i: int, j: int|
            0 <= i < rows.len() && 0 <= j < rows.len() && i != j implies photo_ids(rows)[i]
            != photo_ids(rows)[j] by {
            assert(before@.photos[i] == before.photos@[i]@);
            assert(before@.photos[j] == before.photos@[j]@);
        }
    }
    lemma_photos_reconciled(rows, after@.originals, reconciled);
    assert(last_of(reconciled, k));
    assert(photo_ids(after@.photos).contains(reconciled[k].id@));
    let at = choose|at: int|
        0 <= at < after@.photos.len() && photo_ids(after@.photos)[at] == reconciled[k].id@;
    assert(after.photos@[at].id@ == reconciled[k].id@);
    assert forall|i: int|
        0 <= i < after.photos.len() && (#[trigger] after.photos@[i]).id@
            == reconciled[k].id@ implies as_reconciled(after.photos@[i]@, reconciled[k]) by {
        assert(after@.photos[i] == after.photos@[i]@);
    }
    assert forall|i: int| 0 <= i < after.photos.len() implies {
        let row = #[trigger] after.photos@[i];
        &&& row@.preview_source_revision is None <==> row.preview_source_revision is None
        &&& row@.cache_revision is None <==> row.cache_revision is None
    } by {}
}

/// A scan keeps every stored Photo in its place with its decisions, and nothing is
/// decided about a new one. A Photo that was not reconciled keeps everything but that
/// it is there.
pub proof fn law_scans_keep_what_was_decided(
    before: ScanTables,
    discovered: Seq<DiscoveredOriginal>,
    ids: Seq<String>,
    reconciled: Seq<ReconciledPhoto>,
    plan: ScanRecoveryPlan,
    after: ScanTables,
    i: int,
)
    requires
        scanned(before, discovered, ids, reconciled, plan, after),
        forall|i: int, j: int|
            0 <= i < j < before.photos.len() ==> (#[trigger] before.photos@[i]).id@ != (
            #[trigger] before.photos@[j]).id@,
        0 <= i < after.photos.len(),
    ensures
        after.published,
        before.photos.len() <= after.photos.len(),
        i < before.photos.len() ==> {
            let row = after.photos@[i];
            let old_row = before.photos@[i];
            &&& row.id@ == old_row.id@
            &&& row.selection_state == old_row.selection_state
            &&& row.rating == old_row.rating
            &&& row.has_saved_edits == old_row.has_saved_edits
            &&& row.removed == old_row.removed
        },
        i >= before.photos.len() ==> {
            let row = after.photos@[i];
            &&& row.selection_state == SelectionState::Undecided
            &&& row.rating == 0
            &&& !row.has_saved_edits
            &&& !row.removed
        },
        (forall|k: int|
            0 <= k < reconciled.len() ==> (#[trigger] reconciled[k]).id@ != after.photos@[i].id@)
            ==> {
            let row = after.photos@[i];
            let old_row = before.photos@[i];
            &&& i < before.photos.len()
            &&& !row.available
            &&& row.original_id@ == old_row.original_id@
            &&& row.preview_state == old_row.preview_state
            &&& opt_text(row.preview_source_revision) == opt_text(old_row.preview_source_revision)
            &&& row.preview_width == old_row.preview_width
            &&& row.preview_height == old_row.preview_height
            &&& opt_text(row.cache_revision) == opt_text(old_row.cache_revision)
            &&& row.sort_path@ == old_row.sort_path@
        },
{
    let rows = all_unavailable(before@.photos);
    lemma_scanned_photos(before, discovered, ids, reconciled, plan, after);
    assert(photo_ids(rows).no_duplicates()) by {
        assert forall|i: int, j: int|
            0 <= i < rows.len() && 0 <= j < rows.len() && i != j implies photo_ids(rows)[i]
            != photo_ids(rows)[j] by {
            assert(before@.photos[i] == before.photos@[i]@);
            assert(before@.photos[j] == before.photos@[j]@);
        }
    }
    lemma_photos_reconciled(rows, after@.originals, reconciled);
    lemma_photos_keep_decisions(rows, after@.originals, reconciled);
    assert(after@.photos[i] == after.photos@[i]@);
    if i < before.photos.len() {
        assert(before@.photos[i] == before.photos@[i]@);
        assert(same_decisions(after@.photos[i], rows[i]));
    } else {
        assert(undecided(after@.photos[i]));
    }
}

proof fn lemma_stored_rest(
    rows: Seq<OriginalView>,
    discovered: Seq<DiscoveredOriginal>,
    ids: Seq<Seq<char>>,
    n: nat,
)
    requires
        n <= discovered.len(),
        originals_stored(rows, discovered, ids, n) is Some,
    ensures
        ({
            let after = originals_stored(rows, discovered, ids, n)->0;
            &&& rows.len() <= after.len()
            &&& forall|i: int|
                0 <= i < after.len() && (forall|k: int|
                    0 <= k < n ==> (#[trigger] discovered[k]).path@ != after[i].relative_path)
                    ==> i < rows.len() && #[trigger] after[i] == rows[i]
            &&& forall|i: int|
                rows.len() <= i < after.len() ==> (#[trigger] after[i]).id == settled_id(
                    discovered,
                    ids,
                    after[i].relative_path,
                )
        }),
    decreases n,
{
    if n > 0 {
        lemma_stored_rest(rows, discovered, ids, (n - 1) as nat);
        let before = originals_stored(rows, discovered, ids, (n - 1) as nat)->0;
        let after = originals_stored(rows, discovered, ids, n)->0;
        let found = discovered[n - 1];
        lemma_last_index_found(original_paths(before), found.path@);
        assert(original_stored(before, found, settled_id(discovered, ids, found.path@)) == Some(
            after,
        ));
        let place = last_index(original_paths(before), found.path@);
        assert forall|i: int|
            0 <= i < after.len() && (forall|k: int|
                0 <= k < n ==> (#[trigger] discovered[k]).path@
                    != after[i].relative_path) implies i < rows.len() && #[trigger] after[i]
            == rows[i] by {
            assert(discovered[n - 1].path@ != after[i].relative_path);
            assert(i < before.len() && after[i] == before[i]);
        }
        assert forall|i: int| rows.len() <= i < after.len() implies (#[trigger] after[i]).id
            == settled_id(discovered, ids, after[i].relative_path) by {
            if i < before.len() {
                assert(before[i].id == settled_id(discovered, ids, before[i].relative_path));
                if place == Some(i) {
                    assert(original_paths(before)[i] == found.path@);
                }
            }
        }
    }
}

/// The stored identities of Original Files are those of the primary key.
pub open spec fn originals_apart(rows: Seq<OriginalRecord>) -> bool {
    forall|i: int, j: int|
        0 <= i < j < rows.len() ==> (#[trigger] rows[i]).id@ != (#[trigger] rows[j]).id@
}

proof fn lemma_scanned_originals(
    before: ScanTables,
    discovered: Seq<DiscoveredOriginal>,
    ids: Seq<String>,
    reconciled: Seq<ReconciledPhoto>,
    plan: ScanRecoveryPlan,
    after: ScanTables,
)
    requires
        scanned(before, discovered, ids, reconciled, plan, after),
        originals_apart(before.originals@),
    ensures
        ({
            let rows = all_moved(before@.originals, plan.relocations@);
            &&& originals_stored(rows, discovered, texts(ids), discovered.len()) == Some(
                after@.originals,
            )
            &&& original_ids(rows).no_duplicates()
            &&& original_paths(rows).no_duplicates()
            &&& original_ids(before@.originals).no_duplicates()
            &&& rows.len() == before.originals.len()
            &&& after@.originals.len() == after.originals.len()
            &&& relocations_fit(before@.originals, discovered, plan.relocations@)
        }),
{
    let originals = before@.originals;
    assert forall|i: int, j: int|
        0 <= i < originals.len() && 0 <= j < originals.len() && i != j implies original_ids(
        originals,
    )[i] != original_ids(originals)[j] by {
        assert(originals[i] == before.originals@[i]@);
        assert(originals[j] == before.originals@[j]@);
    }
    lemma_moved_apart(originals, plan.relocations@);
}

/// A scan stores what was found at each Location, as it was found there last: an
/// Original File that is known keeps its identity, and a new one has the identity that
/// was settled for it. It is there exactly when nothing went wrong with it.
pub proof fn law_scans_store_what_was_found(
    before: ScanTables,
    discovered: Seq<DiscoveredOriginal>,
    ids: Seq<String>,
    reconciled: Seq<ReconciledPhoto>,
    plan: ScanRecoveryPlan,
    after: ScanTables,
    k: int,
)
    requires
        scanned(before, discovered, ids, reconciled, plan, after),
        originals_apart(before.originals@),
        ids.len() == discovered.len(),
        0 <= k < discovered.len(),
        forall|j: int|
            k < j < discovered.len() ==> (#[trigger] discovered[j]).path@ != discovered[k].path@,
    ensures
        originals_apart(after.originals@),
        exists|i: int|
            0 <= i < after.originals.len() && (#[trigger] after.originals@[i]).relative_path@
                == discovered[k].path@,
        forall|i: int|
            0 <= i < after.originals.len() && (#[trigger] after.originals@[i]).relative_path@
                == discovered[k].path@ ==> {
                let row = after.originals@[i];
                let found = discovered[k];
                &&& row.kind == found.kind
                &&& row.size == found.size
                &&& row.mtime_ms == found.mtime_ms
                &&& row.available == (found.error_category is None)
                &&& row.error_category == found.error_category
                &&& opt_text(row.error_message) == opt_text(found.error_message)
                &&& row.capture.state == found.capture.state
                &&& opt_text(row.capture.order_key) == opt_text(found.capture.order_key)
                &&& row.capture.field == found.capture.field
                &&& row.capture.offset_minutes == found.capture.offset_minutes
                &&& opt_text(row.capture.source_revision) == opt_text(
                    found.capture.source_revision,
                )
                &&& i < before.originals.len() ==> row.id@ == before.originals@[i].id@
                &&& i >= before.originals.len() ==> row.id@ == ids[k]@
            },
{
    let rows = all_moved(before@.originals, plan.relocations@);
    lemma_scanned_originals(before, discovered, ids, reconciled, plan, after);
    lemma_stored_tells(rows, discovered, texts(ids), discovered.len());
    lemma_stored_extends(rows, discovered, texts(ids), discovered.len());
    lemma_stored_rest(rows, discovered, texts(ids), discovered.len());
    assert(discovered.take(discovered.len() as int) =~= discovered);
    let stored = after@.originals;
    let paths = discovered_paths(discovered);
    lemma_last_index(paths, discovered[k].path@, k);
    assert(original_paths(stored).contains(discovered[k].path@));
    let at = choose|at: int|
        0 <= at < stored.len() && original_paths(stored)[at] == discovered[k].path@;
    assert(after.originals@[at].relative_path@ == discovered[k].path@);
    assert forall|i: int| 0 <= i < after.originals.len() implies stored[i]
        == #[trigger] after.originals@[i]@ by {}
    assert forall|i: int, j: int| 0 <= i < j < after.originals.len() implies (
    #[trigger] after.originals@[i]).id@ != (#[trigger] after.originals@[j]).id@ by {
        assert(original_ids(stored)[i] != original_ids(stored)[j]);
    }
    assert forall|i: int|
        0 <= i < after.originals.len() && (#[trigger] after.originals@[i]).relative_path@
            == discovered[k].path@ implies after.originals@[i]@ == found_row(
        after.originals@[i].id@,
        discovered[k],
    ) && (i < before.originals.len() ==> after.originals@[i].id@ == before.originals@[i].id@) && (i
        >= before.originals.len() ==> after.originals@[i].id@ == ids[k]@) by {
        assert(tells(stored[i], discovered));
        if i < before.originals.len() {
            assert(stored[i].id == rows[i].id);
            assert(before@.originals[i] == before.originals@[i]@);
        } else {
            assert(texts(ids)[k] == ids[k]@);
        }
    }
    assert forall|i: int| 0 <= i < after.originals.len() implies {
        let row = #[trigger] after.originals@[i];
        &&& row@.capture.state == row.capture.state
        &&& row@.capture.order_key == opt_text(row.capture.order_key)
        &&& row@.capture.field == row.capture.field
        &&& row@.capture.offset_minutes == row.capture.offset_minutes
        &&& row@.capture.source_revision == opt_text(row.capture.source_revision)
    } by {}
}

/// A scan keeps every stored Original File in its place and with its identity: it is
/// where its relocation puts it, else where it was. One that was not found again is not
/// there and keeps the rest, but for the capture facts of one that was relocated.
pub proof fn law_scans_keep_what_was_not_found(
    before: ScanTables,
    discovered: Seq<DiscoveredOriginal>,
    ids: Seq<String>,
    reconciled: Seq<ReconciledPhoto>,
    plan: ScanRecoveryPlan,
    after: ScanTables,
    i: int,
)
    requires
        scanned(before, discovered, ids, reconciled, plan, after),
        originals_apart(before.originals@),
        0 <= i < before.originals.len(),
    ensures
        before.originals.len() <= after.originals.len(),
        after.originals@[i].id@ == before.originals@[i].id@,
        forall|r: int|
            0 <= r < plan.relocations.len() && (#[trigger] plan.relocations@[r]).original_id@
                == before.originals@[i].id@ ==> after.originals@[i].relative_path@
                == plan.relocations@[r].path@,
        (forall|r: int|
            0 <= r < plan.relocations.len() ==> (#[trigger] plan.relocations@[r]).original_id@
                != before.originals@[i].id@) ==> after.originals@[i].relative_path@
            == before.originals@[i].relative_path@,
        (forall|k: int|
            0 <= k < discovered.len() ==> (#[trigger] discovered[k]).path@
                != after.originals@[i].relative_path@) ==> {
            let row = after.originals@[i];
            let old_row = before.originals@[i];
            &&& !row.available
            &&& row.kind == old_row.kind
            &&& row.size == old_row.size
            &&& row.mtime_ms == old_row.mtime_ms
            &&& row.error_category == old_row.error_category
            &&& opt_text(row.error_message) == opt_text(old_row.error_message)
            &&& (forall|r: int|
                0 <= r < plan.relocations.len() ==> (
                #[trigger] plan.relocations@[r]).original_id@ != old_row.id@) ==> row.capture@
                == old_row.capture@
        },
{
    let rows = all_moved(before@.originals, plan.relocations@);
    let relocations = plan.relocations@;
    lemma_scanned_originals(before, discovered, ids, reconciled, plan, after);
    lemma_stored_extends(rows, discovered, texts(ids), discovered.len());
    lemma_stored_rest(rows, discovered, texts(ids), discovered.len());
    let id = before.originals@[i].id@;
    assert(after@.originals[i] == after.originals@[i]@);
    assert(before@.originals[i] == before.originals@[i]@);
    assert(after@.originals[i].id == rows[i].id);
    let names = relocation_ids(relocations);
    lemma_last_index_found(names, id);
    assert forall|r: int|
        0 <= r < relocations.len() && (#[trigger] relocations[r]).original_id@ == id implies
        last_index(names, id) == Some(r) by {
        assert(names[r] == id);
        assert(names[last_index(names, id)->0] == id);
    }
    if forall|r: int|
        0 <= r < relocations.len() ==> (#[trigger] relocations[r]).original_id@ != id {
        if names.contains(id) {
            let r = choose|r: int| 0 <= r < names.len() && names[r] == id;
            assert(relocations[r].original_id@ == id);
        }
    }
}

/// A scan that is applied relocates known Original Files alone, each one once, to
/// Locations where a file of its kind was found last.
pub proof fn law_scans_relocate_what_was_found(
    before: ScanTables,
    discovered: Seq<DiscoveredOriginal>,
    ids: Seq<String>,
    reconciled: Seq<ReconciledPhoto>,
    plan: ScanRecoveryPlan,
    after: ScanTables,
    r: int,
)
    requires
        scanned(before, discovered, ids, reconciled, plan, after),
        originals_apart(before.originals@),
        0 <= r < plan.relocations.len(),
    ensures
        exists|i: int, k: int|
            0 <= i < before.originals.len() && 0 <= k < discovered.len() && (
            #[trigger] before.originals@[i]).id@ == plan.relocations@[r].original_id@ && (
            #[trigger] discovered[k]).path@ == plan.relocations@[r].path@ && discovered[k].kind
                == before.originals@[i].kind && forall|j: int|
                k < j < discovered.len() ==> (#[trigger] discovered[j]).path@
                    != discovered[k].path@,
        forall|q: int|
            0 <= q < plan.relocations.len() && q != r ==> (
            #[trigger] plan.relocations@[q]).original_id@ != plan.relocations@[r].original_id@,
{
    lemma_scanned_originals(before, discovered, ids, reconciled, plan, after);
    let relocation = plan.relocations@[r];
    assert(relocation_fits(before@.originals, discovered, relocation));
    let stored = original_ids(before@.originals);
    let found = discovered_paths(discovered);
    lemma_last_index_found(stored, relocation.original_id@);
    lemma_last_index_found(found, relocation.path@);
    let i = last_index(stored, relocation.original_id@)->0;
    let k = last_index(found, relocation.path@)->0;
    assert(before@.originals[i] == before.originals@[i]@);
    assert(before.originals@[i].id@ == relocation.original_id@);
    assert(discovered[k].path@ == relocation.path@);
    assert forall|j: int| k < j < discovered.len() implies (#[trigger] discovered[j]).path@
        != discovered[k].path@ by {
        assert(found[j] == discovered[j].path@);
    }
    assert forall|q: int| 0 <= q < plan.relocations.len() && q != r implies (
    #[trigger] plan.relocations@[q]).original_id@ != relocation.original_id@ by {
        let names = relocation_ids(plan.relocations@);
        assert(names[q] != names[r]);
    }
}

/// A scan whose plan relocates an unknown Original File, relocates one twice, moves one
/// to where nothing of its kind was found, or leaves two at one Location is refused.
pub proof fn law_unfit_relocations_are_refused(
    before: ScanTables,
    discovered: Seq<DiscoveredOriginal>,
    ids: Seq<String>,
    reconciled: Seq<ReconciledPhoto>,
    plan: ScanRecoveryPlan,
    r: int,
    q: int,
)
    requires
        0 <= r < plan.relocations.len(),
        ({
            ||| forall|i: int|
                0 <= i < before.originals.len() ==> (#[trigger] before.originals@[i]).id@
                    != plan.relocations@[r].original_id@
            ||| forall|k: int|
                0 <= k < discovered.len() ==> (#[trigger] discovered[k]).path@
                    != plan.relocations@[r].path@
            ||| 0 <= q < plan.relocations.len() && q != r && plan.relocations@[q].original_id@
                == plan.relocations@[r].original_id@
            ||| forall|i: int, k: int|
                0 <= i < before.originals.len() && 0 <= k < discovered.len() && (
                #[trigger] before.originals@[i]).id@ == plan.relocations@[r].original_id@ && (
                #[trigger] discovered[k]).path@ == plan.relocations@[r].path@ ==> discovered[k].kind
                    != before.originals@[i].kind
        }),
    ensures
        scan_applied(
            before@,
            discovered,
            texts(ids),
            reconciled,
            plan.relocations@,
            plan.fingerprints@,
        ) == Err::<TablesView, PersistenceError>(PersistenceError::InvalidRecovery),
{
    let relocation = plan.relocations@[r];
    let stored = original_ids(before@.originals);
    let found = discovered_paths(discovered);
    lemma_last_index_found(stored, relocation.original_id@);
    lemma_last_index_found(found, relocation.path@);
    if relocations_fit(before@.originals, discovered, plan.relocations@) {
        assert(relocation_fits(before@.originals, discovered, relocation));
        let i = last_index(stored, relocation.original_id@)->0;
        let k = last_index(found, relocation.path@)->0;
        assert(before@.originals[i] == before.originals@[i]@);
        assert(before.originals@[i].id@ == relocation.original_id@);
        assert(discovered[k].path@ == relocation.path@);
        let names = relocation_ids(plan.relocations@);
        assert(names[r] == relocation.original_id@);
        if 0 <= q < plan.relocations.len() && q != r {
            assert(names[q] != names[r]);
        }
    }
}

spec fn last_print(fingerprints: Seq<DiscoveredFingerprint>, k: int) -> bool {
    &&& 0 <= k < fingerprints.len()
    &&& forall|j: int|
        k < j < fingerprints.len() ==> (#[trigger] fingerprints[j]).path@ != fingerprints[k].path@
}

proof fn lemma_fingerprints_told(
    rows: Seq<FingerprintView>,
    originals: Seq<OriginalView>,
    fingerprints: Seq<DiscoveredFingerprint>,
)
    requires
        fingerprint_ids(rows).no_duplicates(),
        original_ids(originals).no_duplicates(),
        original_paths(originals).no_duplicates(),
        fingerprints_stored(rows, originals, fingerprints) is Ok,
    ensures
        ({
            let after = fingerprints_stored(rows, originals, fingerprints)->Ok_0;
            &&& fingerprint_ids(after).no_duplicates()
            &&& forall|k: int, o: int|
                #[trigger] last_print(fingerprints, k) && 0 <= o < originals.len() && (
                #[trigger] originals[o]).relative_path == fingerprints[k].path@
                    ==> after.contains(
                    FingerprintView {
                        original_id: originals[o].id,
                        digest: fingerprints[k].digest@,
                        size: originals[o].size,
                        mtime_ms: originals[o].mtime_ms,
                    },
                )
            &&& forall|k: int|
                0 <= k < fingerprints.len() ==> original_paths(originals).contains(
                    (#[trigger] fingerprints[k]).path@,
                )
            &&& forall|i: int|
                0 <= i < after.len() && (forall|o: int, k: int|
                    0 <= o < originals.len() && 0 <= k < fingerprints.len() && (
                    #[trigger] originals[o]).relative_path == (
                    #[trigger] fingerprints[k]).path@ ==> originals[o].id != after[i].original_id)
                    ==> rows.contains(#[trigger] after[i])
            &&& forall|i: int|
                0 <= i < rows.len() && (forall|o: int, k: int|
                    0 <= o < originals.len() && 0 <= k < fingerprints.len() && (
                    #[trigger] originals[o]).relative_path == (
                    #[trigger] fingerprints[k]).path@ ==> originals[o].id != rows[i].original_id)
                    ==> after.contains(#[trigger] rows[i])
        }),
    decreases fingerprints.len(),
{
    if fingerprints.len() == 0 {
        assert forall|i: int| 0 <= i < rows.len() implies rows.contains(#[trigger] rows[i]) by {}
    } else {
        let front = fingerprints.drop_last();
        lemma_fingerprints_told(rows, originals, front);
        let before = fingerprints_stored(rows, originals, front)->Ok_0;
        let after = fingerprints_stored(rows, originals, fingerprints)->Ok_0;
        let last = fingerprints.last();
        let m = fingerprints.len() - 1;
        assert(fingerprints[m] == last);
        assert(fingerprint_stored(before, originals, last) == Ok::<
            Seq<FingerprintView>,
            PersistenceError,
        >(after));
        lemma_last_index_found(original_paths(originals), last.path@);
        let p = last_index(original_paths(originals), last.path@)->0;
        assert(original_paths(originals)[p] == last.path@);
        assert(originals[p].relative_path == last.path@);
        let row = FingerprintView {
            original_id: originals[p].id,
            digest: last.digest@,
            size: originals[p].size,
            mtime_ms: originals[p].mtime_ms,
        };
        lemma_last_index_found(fingerprint_ids(before), originals[p].id);
        let place = last_index(fingerprint_ids(before), originals[p].id);
        let at = match place {
            Some(f) => f,
            None => before.len() as int,
        };
        assert(after[at] == row);
        assert forall|i: int, j: int|
            0 <= i < after.len() && 0 <= j < after.len() && i != j implies fingerprint_ids(after)[i]
            != fingerprint_ids(after)[j] by {
            if i < before.len() && j < before.len() {
                assert(fingerprint_ids(before)[i] != fingerprint_ids(before)[j]);
                if place is Some {
                    assert(fingerprint_ids(before)[at] == originals[p].id);
                }
            } else if i < before.len() {
                assert(fingerprint_ids(before).contains(fingerprint_ids(before)[i]));
            } else {
                assert(fingerprint_ids(before).contains(fingerprint_ids(before)[j]));
            }
        }
        assert forall|k: int, o: int|
            #[trigger] last_print(fingerprints, k) && 0 <= o < originals.len() && (
            #[trigger] originals[o]).relative_path == fingerprints[k].path@ implies after.contains(
            FingerprintView {
                original_id: originals[o].id,
                digest: fingerprints[k].digest@,
                size: originals[o].size,
                mtime_ms: originals[o].mtime_ms,
            },
        ) by {
            if k == m {
                assert(original_paths(originals)[o] == original_paths(originals)[p]);
                assert(after[at] == row);
            } else {
                assert(fingerprints[m].path@ != fingerprints[k].path@);
                assert(front[k] == fingerprints[k]);
                assert(last_print(front, k)) by {
                    assert forall|j: int| k < j < front.len() implies (#[trigger] front[j]).path@
                        != front[k].path@ by {
                        assert(front[j] == fingerprints[j]);
                    }
                }
                let told = FingerprintView {
                    original_id: originals[o].id,
                    digest: fingerprints[k].digest@,
                    size: originals[o].size,
                    mtime_ms: originals[o].mtime_ms,
                };
                assert(before.contains(told));
                let i = choose|i: int| 0 <= i < before.len() && before[i] == told;
                assert(o != p);
                assert(original_ids(originals)[o] != original_ids(originals)[p]);
                if place is Some {
                    assert(fingerprint_ids(before)[at] == originals[p].id);
                }
                assert(i != at);
                assert(after[i] == told);
            }
        }
        assert forall|k: int| 0 <= k < fingerprints.len() implies original_paths(
            originals,
        ).contains((#[trigger] fingerprints[k]).path@) by {
            if k < m {
                assert(front[k] == fingerprints[k]);
            }
        }
        assert forall|i: int|
            0 <= i < after.len() && (forall|o: int, k: int|
                0 <= o < originals.len() && 0 <= k < fingerprints.len() && (
                #[trigger] originals[o]).relative_path == (#[trigger] fingerprints[k]).path@
                    ==> originals[o].id != after[i].original_id) implies rows.contains(
            #[trigger] after[i],
        ) by {
            assert(originals[p].relative_path == fingerprints[m].path@);
            assert(i != at);
            assert(after[i] == before[i]);
            assert forall|o: int, k: int|
                0 <= o < originals.len() && 0 <= k < front.len() && (
                #[trigger] originals[o]).relative_path == (
                #[trigger] front[k]).path@ implies originals[o].id != before[i].original_id by {
                assert(front[k] == fingerprints[k]);
            }
            assert(rows.contains(before[i]));
        }
        assert forall|i: int|
            0 <= i < rows.len() && (forall|o: int, k: int|
                0 <= o < originals.len() && 0 <= k < fingerprints.len() && (
                #[trigger] originals[o]).relative_path == (#[trigger] fingerprints[k]).path@
                    ==> originals[o].id != rows[i].original_id) implies after.contains(
            #[trigger] rows[i],
        ) by {
            assert(originals[p].relative_path == fingerprints[m].path@);
            assert forall|o: int, k: int|
                0 <= o < originals.len() && 0 <= k < front.len() && (
                #[trigger] originals[o]).relative_path == (
                #[trigger] front[k]).path@ implies originals[o].id != rows[i].original_id by {
                assert(front[k] == fingerprints[k]);
            }
            assert(before.contains(rows[i]));
            let j = choose|j: int| 0 <= j < before.len() && before[j] == rows[i];
            if place is Some {
                assert(fingerprint_ids(before)[at] == originals[p].id);
            }
            assert(j != at);
            assert(after[j] == rows[i]);
        }
    }
}

proof fn lemma_current_members(rows: Seq<FingerprintView>, originals: Seq<OriginalView>)
    requires
        fingerprint_ids(rows).no_duplicates(),
    ensures
        ({
            let kept = current_fingerprints(rows, originals);
            &&& fingerprint_ids(kept).no_duplicates()
            &&& forall|x: FingerprintView| #[trigger]
                kept.contains(x) <==> rows.contains(x) && !stale(x, originals)
        }),
    decreases rows.len(),
{
    if rows.len() > 0 {
        let front = rows.drop_last();
        let last = rows.last();
        assert forall|i: int, j: int|
            0 <= i < front.len() && 0 <= j < front.len() && i != j implies fingerprint_ids(front)[i]
            != fingerprint_ids(front)[j] by {
            assert(fingerprint_ids(rows)[i] != fingerprint_ids(rows)[j]);
        }
        lemma_current_members(front, originals);
        let before = current_fingerprints(front, originals);
        let kept = current_fingerprints(rows, originals);
        assert forall|x: FingerprintView| #[trigger] kept.contains(x) <==> rows.contains(x)
            && !stale(x, originals) by {
            if rows.contains(x) {
                let i = choose|i: int| 0 <= i < rows.len() && rows[i] == x;
                if i < front.len() {
                    assert(front[i] == x);
                }
            }
            if front.contains(x) {
                let i = choose|i: int| 0 <= i < front.len() && front[i] == x;
                assert(rows[i] == x);
            }
            if before.contains(x) {
                let i = choose|i: int| 0 <= i < before.len() && before[i] == x;
                assert(kept[i] == x);
            }
            if !stale(last, originals) {
                assert(kept[before.len() as int] == last);
            }
            assert(rows[rows.len() - 1] == last);
            if kept.contains(x) && !before.contains(x) {
                let i = choose|i: int| 0 <= i < kept.len() && kept[i] == x;
                if i < before.len() {
                    assert(before[i] == x);
                }
            }
        }
        assert forall|i: int, j: int|
            0 <= i < j < kept.len() implies fingerprint_ids(kept)[i] != fingerprint_ids(kept)[j] by {
            if j < before.len() {
                assert(fingerprint_ids(before)[i] != fingerprint_ids(before)[j]);
            } else {
                assert(before.contains(before[i]));
                let f = choose|f: int| 0 <= f < front.len() && front[f] == before[i];
                assert(fingerprint_ids(rows)[f] != fingerprint_ids(rows)[rows.len() - 1]);
            }
        }
    }
}

proof fn lemma_scanned_fingerprints(
    before: ScanTables,
    discovered: Seq<DiscoveredOriginal>,
    ids: Seq<String>,
    reconciled: Seq<ReconciledPhoto>,
    plan: ScanRecoveryPlan,
    after: ScanTables,
)
    requires
        scanned(before, discovered, ids, reconciled, plan, after),
        originals_apart(before.originals@),
        forall|i: int, j: int|
            0 <= i < j < before.fingerprints.len() ==> (
            #[trigger] before.fingerprints@[i]).original_id@ != (
            #[trigger] before.fingerprints@[j]).original_id@,
    ensures
        ({
            let kept = current_fingerprints(before@.fingerprints, after@.originals);
            &&& fingerprints_stored(kept, after@.originals, plan.fingerprints@) == Ok::<
                Seq<FingerprintView>,
                PersistenceError,
            >(after@.fingerprints)
            &&& fingerprint_ids(before@.fingerprints).no_duplicates()
            &&& original_ids(after@.originals).no_duplicates()
            &&& original_paths(after@.originals).no_duplicates()
            &&& after@.fingerprints.len() == after.fingerprints.len()
            &&& before@.fingerprints.len() == before.fingerprints.len()
            &&& after@.originals.len() == after.originals.len()
        }),
{
    lemma_scanned_originals(before, discovered, ids, reconciled, plan, after);
    let rows = all_moved(before@.originals, plan.relocations@);
    lemma_stored_extends(rows, discovered, texts(ids), discovered.len());
    let prints = before@.fingerprints;
    assert forall|i: int, j: int|
        0 <= i < prints.len() && 0 <= j < prints.len() && i != j implies fingerprint_ids(prints)[i]
        != fingerprint_ids(prints)[j] by {
        assert(prints[i] == before.fingerprints@[i]@);
        assert(prints[j] == before.fingerprints@[j]@);
    }
}

/// A scan stores each digest that its plan holds, the last one of a Location, for the
/// Original File there and with the revision that is stored of it.
pub proof fn law_scans_store_fingerprints(
    before: ScanTables,
    discovered: Seq<DiscoveredOriginal>,
    ids: Seq<String>,
    reconciled: Seq<ReconciledPhoto>,
    plan: ScanRecoveryPlan,
    after: ScanTables,
    k: int,
)
    requires
        scanned(before, discovered, ids, reconciled, plan, after),
        originals_apart(before.originals@),
        forall|i: int, j: int|
            0 <= i < j < before.fingerprints.len() ==> (
            #[trigger] before.fingerprints@[i]).original_id@ != (
            #[trigger] before.fingerprints@[j]).original_id@,
        0 <= k < plan.fingerprints.len(),
        forall|j: int|
            k < j < plan.fingerprints.len() ==> (#[trigger] plan.fingerprints@[j]).path@
                != plan.fingerprints@[k].path@,
    ensures
        exists|o: int, i: int|
            0 <= o < after.originals.len() && 0 <= i < after.fingerprints.len() && (
            #[trigger] after.originals@[o]).relative_path@ == plan.fingerprints@[k].path@ && (
            #[trigger] after.fingerprints@[i]).original_id@ == after.originals@[o].id@
                && after.fingerprints@[i].digest@ == plan.fingerprints@[k].digest@
                && after.fingerprints@[i].size == after.originals@[o].size
                && after.fingerprints@[i].mtime_ms == after.originals@[o].mtime_ms,
        forall|i: int, j: int|
            0 <= i < j < after.fingerprints.len() ==> (
            #[trigger] after.fingerprints@[i]).original_id@ != (
            #[trigger] after.fingerprints@[j]).original_id@,
{
    lemma_scanned_fingerprints(before, discovered, ids, reconciled, plan, after);
    let originals = after@.originals;
    let kept = current_fingerprints(before@.fingerprints, originals);
    lemma_current_members(before@.fingerprints, originals);
    lemma_fingerprints_told(kept, originals, plan.fingerprints@);
    let path = plan.fingerprints@[k].path@;
    assert(original_paths(originals).contains(path));
    let o = choose|o: int| 0 <= o < originals.len() && original_paths(originals)[o] == path;
    assert(originals[o] == after.originals@[o]@);
    assert(last_print(plan.fingerprints@, k));
    let told = FingerprintView {
        original_id: originals[o].id,
        digest: plan.fingerprints@[k].digest@,
        size: originals[o].size,
        mtime_ms: originals[o].mtime_ms,
    };
    assert(originals[o].relative_path == path);
    assert(after@.fingerprints.contains(told));
    let i = choose|i: int| 0 <= i < after@.fingerprints.len() && after@.fingerprints[i] == told;
    assert(after@.fingerprints[i] == after.fingerprints@[i]@);
    assert(after.originals@[o].relative_path@ == path);
    assert(after.fingerprints@[i].original_id@ == after.originals@[o].id@);
    assert forall|a: int, b: int| 0 <= a < b < after.fingerprints.len() implies (
    #[trigger] after.fingerprints@[a]).original_id@ != (
    #[trigger] after.fingerprints@[b]).original_id@ by {
        assert(after@.fingerprints[a] == after.fingerprints@[a]@);
        assert(after@.fingerprints[b] == after.fingerprints@[b]@);
        assert(fingerprint_ids(after@.fingerprints)[a] != fingerprint_ids(after@.fingerprints)[b]);
    }
}

/// A scan keeps a stored fingerprint that its plan does not replace exactly when the
/// Original File it describes still has that size and time.
pub proof fn law_scans_keep_current_fingerprints(
    before: ScanTables,
    discovered: Seq<DiscoveredOriginal>,
    ids: Seq<String>,
    reconciled: Seq<ReconciledPhoto>,
    plan: ScanRecoveryPlan,
    after: ScanTables,
    j: int,
    o: int,
)
    requires
        scanned(before, discovered, ids, reconciled, plan, after),
        originals_apart(before.originals@),
        forall|i: int, j: int|
            0 <= i < j < before.fingerprints.len() ==> (
            #[trigger] before.fingerprints@[i]).original_id@ != (
            #[trigger] before.fingerprints@[j]).original_id@,
        0 <= j < before.fingerprints.len(),
        0 <= o < after.originals.len(),
        before.fingerprints@[j].original_id@ == after.originals@[o].id@,
        forall|k: int|
            0 <= k < plan.fingerprints.len() ==> (#[trigger] plan.fingerprints@[k]).path@
                != after.originals@[o].relative_path@,
    ensures
        before.fingerprints@[j].size == after.originals@[o].size && same_real(
            before.fingerprints@[j].mtime_ms,
            after.originals@[o].mtime_ms,
        ) ==> exists|i: int|
            0 <= i < after.fingerprints.len() && (
            #[trigger] after.fingerprints@[i]).original_id@ == before.fingerprints@[j].original_id@
                && after.fingerprints@[i].digest@ == before.fingerprints@[j].digest@
                && after.fingerprints@[i].size == before.fingerprints@[j].size
                && after.fingerprints@[i].mtime_ms == before.fingerprints@[j].mtime_ms,
        before.fingerprints@[j].size != after.originals@[o].size || !same_real(
            before.fingerprints@[j].mtime_ms,
            after.originals@[o].mtime_ms,
        ) ==> forall|i: int|
            0 <= i < after.fingerprints.len() ==> (
            #[trigger] after.fingerprints@[i]).original_id@
                != before.fingerprints@[j].original_id@,
{
    lemma_scanned_fingerprints(before, discovered, ids, reconciled, plan, after);
    let originals = after@.originals;
    let prints = before@.fingerprints;
    let kept = current_fingerprints(prints, originals);
    lemma_current_members(prints, originals);
    lemma_fingerprints_told(kept, originals, plan.fingerprints@);
    let print = prints[j];
    assert(print == before.fingerprints@[j]@);
    assert(originals[o] == after.originals@[o]@);
    assert(prints.contains(print));
    assert(original_ids(originals)[o] == print.original_id);
    assert(last_index(original_ids(originals), print.original_id) == Some(o)) by {
        assert forall|x: int| o < x < originals.len() implies original_ids(originals)[x]
            != print.original_id by {
            assert(original_ids(originals)[x] != original_ids(originals)[o]);
        }
        lemma_last_index(original_ids(originals), print.original_id, o);
    }
    assert forall|p: int, k: int|
        0 <= p < originals.len() && 0 <= k < plan.fingerprints@.len() && (
        #[trigger] originals[p]).relative_path == (
        #[trigger] plan.fingerprints@[k]).path@ implies originals[p].id != print.original_id by {
        if p != o {
            assert(original_ids(originals)[p] != original_ids(originals)[o]);
        }
    }
    if !stale(print, originals) {
        assert(kept.contains(print));
        let f = choose|f: int| 0 <= f < kept.len() && kept[f] == print;
        assert(after@.fingerprints.contains(kept[f]));
        let i = choose|i: int|
            0 <= i < after@.fingerprints.len() && after@.fingerprints[i] == print;
        assert(after@.fingerprints[i] == after.fingerprints@[i]@);
        assert(after.fingerprints@[i].original_id@ == before.fingerprints@[j].original_id@);
    } else {
        assert forall|i: int| 0 <= i < after.fingerprints.len() implies (
        #[trigger] after.fingerprints@[i]).original_id@ != print.original_id by {
            let row = after@.fingerprints[i];
            assert(row == after.fingerprints@[i]@);
            if row.original_id == print.original_id {
                assert(kept.contains(row));
                assert(prints.contains(row));
                let x = choose|x: int| 0 <= x < prints.len() && prints[x] == row;
                assert(fingerprint_ids(prints)[x] == fingerprint_ids(prints)[j]);
                assert(x == j);
            }
        }
    }
}

proof fn lemma_stored_in_full(text: Seq<char>)
    requires
        forall|i: int| 0 <= i < text.len() ==> #[trigger] text[i] != '\0',
    ensures
        stored_length(text) == text.len(),
    decreases text.len(),
{
    if text.len() > 0 {
        assert forall|i: int| 0 <= i < text.drop_first().len() implies #[trigger] text.drop_first()[i]
            != '\0' by {
            assert(text.drop_first()[i] == text[i + 1]);
        }
        lemma_stored_in_full(text.drop_first());
    }
}

proof fn lemma_stored_fit(
    rows: Seq<OriginalView>,
    discovered: Seq<DiscoveredOriginal>,
    ids: Seq<Seq<char>>,
    n: nat,
    k: int,
)
    requires
        0 <= k < n <= discovered.len(),
        originals_stored(rows, discovered, ids, n) is Some,
    ensures
        storable(discovered[k]),
    decreases n,
{
    if k < n - 1 {
        lemma_stored_fit(rows, discovered, ids, (n - 1) as nat, k);
    }
}

/// A scan stores only what can be stored: sizes that a signed number holds, times that
/// are not below zero, offsets within fourteen hours, short messages, and capture facts
/// that go together.
pub proof fn law_scans_store_what_fits(
    before: ScanTables,
    discovered: Seq<DiscoveredOriginal>,
    ids: Seq<String>,
    reconciled: Seq<ReconciledPhoto>,
    plan: ScanRecoveryPlan,
    after: ScanTables,
    k: int,
)
    requires
        scanned(before, discovered, ids, reconciled, plan, after),
        0 <= k < discovered.len(),
    ensures
        ({
            let found = discovered[k];
            &&& found.size <= 0x7fff_ffff_ffff_ffff
            &&& found.mtime_ms.bits <= 0x7ff0_0000_0000_0000 || found.mtime_ms.bits
                == 0x8000_0000_0000_0000
            &&& found.capture.offset_minutes is Some ==> -840
                <= found.capture.offset_minutes->0 <= 840
            &&& found.error_message is Some && (forall|i: int|
                0 <= i < found.error_message->0@.len() ==> #[trigger] found.error_message->0@[i]
                    != '\0') ==> found.error_message->0@.len() <= 120
            &&& found.capture.order_key is Some <==> found.capture.state
                == CaptureMetadataState::Known
            &&& found.capture.order_key is Some ==> found.capture.field is Some
                && found.capture.source_revision is Some
            &&& found.capture.state == CaptureMetadataState::Pending
                ==> found.capture.source_revision is None
        }),
{
    lemma_stored_fit(
        all_moved(before@.originals, plan.relocations@),
        discovered,
        texts(ids),
        discovered.len(),
        k,
    );
    let found = discovered[k];
    if found.error_message is Some && (forall|i: int|
        0 <= i < found.error_message->0@.len() ==> #[trigger] found.error_message->0@[i] != '\0') {
        lemma_stored_in_full(found.error_message->0@);
    }
}

proof fn lemma_photos_fit(
    rows: Seq<PhotoView>,
    originals: Seq<OriginalView>,
    reconciled: Seq<ReconciledPhoto>,
)
    requires
        photo_ids(rows).no_duplicates(),
        photo_owners(rows).no_duplicates(),
        photos_stored(rows, originals, reconciled) is Some,
    ensures
        ({
            let after = photos_stored(rows, originals, reconciled)->0;
            &&& photo_ids(after).no_duplicates()
            &&& photo_owners(after).no_duplicates()
            &&& forall|k: int|
                0 <= k < reconciled.len() ==> {
                    let photo = #[trigger] reconciled[k];
                    &&& original_ids(originals).contains(photo.original_id@)
                    &&& photo.preserve && photo.prior is Some ==> photo.prior->0.width != Some(0u32)
                        && photo.prior->0.height != Some(0u32)
                }
        }),
    decreases reconciled.len(),
{
    if reconciled.len() > 0 {
        let front = reconciled.drop_last();
        lemma_photos_fit(rows, originals, front);
        let before = photos_stored(rows, originals, front)->0;
        let after = photos_stored(rows, originals, reconciled)->0;
        let photo = reconciled.last();
        let place = last_index(photo_ids(before), photo.id@);
        lemma_last_index_found(photo_ids(before), photo.id@);
        assert(photo_stored(before, originals, photo) == Some(after));
        lemma_photos_reconciled(rows, originals, reconciled);
        assert forall|i: int, j: int|
            0 <= i < after.len() && 0 <= j < after.len() && i != j implies photo_owners(after)[i]
            != photo_owners(after)[j] by {
            let at = match place {
                Some(k) => k,
                None => before.len() as int,
            };
            if i != at && j != at {
                assert(photo_owners(before)[i] != photo_owners(before)[j]);
            } else {
                let other = if i == at {
                    j
                } else {
                    i
                };
                assert(after[at].original_id == photo.original_id@);
                assert(after[other] == before[other]);
                if before[other].original_id == photo.original_id@ {
                    assert(before[other].id == photo.id@);
                    assert(photo_ids(before)[other] == photo.id@);
                    if place is Some {
                        assert(photo_ids(before)[at] == photo.id@);
                    }
                }
            }
        }
        assert forall|k: int| 0 <= k < reconciled.len() implies {
            let photo = #[trigger] reconciled[k];
            &&& original_ids(originals).contains(photo.original_id@)
            &&& photo.preserve && photo.prior is Some ==> photo.prior->0.width != Some(0u32)
                && photo.prior->0.height != Some(0u32)
        } by {
            if k < front.len() {
                assert(front[k] == reconciled[k]);
            }
        }
    }
}

/// A scan stores a Photo only of an Original File that is stored, and never two Photos
/// of one. A kept Preview has a width and a height above zero.
pub proof fn law_scans_store_one_photo_of_each_file(
    before: ScanTables,
    discovered: Seq<DiscoveredOriginal>,
    ids: Seq<String>,
    reconciled: Seq<ReconciledPhoto>,
    plan: ScanRecoveryPlan,
    after: ScanTables,
    k: int,
)
    requires
        scanned(before, discovered, ids, reconciled, plan, after),
        forall|i: int, j: int|
            0 <= i < j < before.photos.len() ==> (#[trigger] before.photos@[i]).id@ != (
            #[trigger] before.photos@[j]).id@ && before.photos@[i].original_id@
                != before.photos@[j].original_id@,
        0 <= k < reconciled.len(),
    ensures
        exists|o: int|
            0 <= o < after.originals.len() && (#[trigger] after.originals@[o]).id@
                == reconciled[k].original_id@,
        reconciled[k].preserve && reconciled[k].prior is Some ==> reconciled[k].prior->0.width
            != Some(0u32) && reconciled[k].prior->0.height != Some(0u32),
        forall|i: int, j: int|
            0 <= i < j < after.photos.len() ==> (#[trigger] after.photos@[i]).original_id@ != (
            #[trigger] after.photos@[j]).original_id@,
{
    lemma_scanned_photos(before, discovered, ids, reconciled, plan, after);
    let rows = all_unavailable(before@.photos);
    assert forall|i: int, j: int|
        0 <= i < rows.len() && 0 <= j < rows.len() && i != j implies photo_ids(rows)[i]
        != photo_ids(rows)[j] && photo_owners(rows)[i] != photo_owners(rows)[j] by {
        assert(before@.photos[i] == before.photos@[i]@);
        assert(before@.photos[j] == before.photos@[j]@);
        if i < j {
            assert(before.photos@[i].id@ != before.photos@[j].id@);
        } else {
            assert(before.photos@[j].id@ != before.photos@[i].id@);
        }
    }
    lemma_photos_fit(rows, after@.originals, reconciled);
    assert(original_ids(after@.originals).contains(reconciled[k].original_id@));
    let o = choose|o: int|
        0 <= o < after@.originals.len() && original_ids(after@.originals)[o]
            == reconciled[k].original_id@;
    assert(after@.originals[o] == after.originals@[o]@);
    assert forall|i: int, j: int| 0 <= i < j < after.photos.len() implies (
    #[trigger] after.photos@[i]).original_id@ != (#[trigger] after.photos@[j]).original_id@ by {
        assert(photo_owners(after@.photos)[i] != photo_owners(after@.photos)[j]);
        assert(after@.photos[i] == after.photos@[i]@);
        assert(after@.photos[j] == after.photos@[j]@);
    }
}

proof fn lemma_identities_told(
    originals: Seq<OriginalView>,
    photos: Seq<PhotoView>,
    relocations: Seq<ScanRelocation>,
    discovered: Seq<DiscoveredOriginal>,
    fresh: Seq<Seq<char>>,
)
    requires
        identities(originals, photos, relocations, discovered, fresh) is Some,
    ensures
        ({
            let settled = identities(originals, photos, relocations, discovered, fresh)->0;
            &&& settled.ids.len() == discovered.len()
            &&& settled.reserved.len() <= discovered.len()
            &&& settled.reserved.no_duplicates()
            &&& forall|i: int|
                0 <= i < settled.reserved.len() ==> (#[trigger] settled.reserved[i]) == fresh[i]
                    && !original_ids(originals).contains(settled.reserved[i]) && !photo_ids(
                    photos,
                ).contains(settled.reserved[i])
            &&& forall|k: int|
                0 <= k < discovered.len() ==> match known_id(
                    originals,
                    relocations,
                    (#[trigger] discovered[k]).path@,
                ) {
                    Some(id) => settled.ids[k] == id,
                    None => settled.reserved.contains(settled.ids[k]),
                }
            &&& forall|k: int, j: int|
                0 <= k < j < discovered.len() && known_id(
                    originals,
                    relocations,
                    (#[trigger] discovered[k]).path@,
                ) is None && known_id(
                    originals,
                    relocations,
                    (#[trigger] discovered[j]).path@,
                ) is None ==> settled.ids[k] != settled.ids[j]
        }),
    decreases discovered.len(),
{
    if discovered.len() > 0 {
        let front = discovered.drop_last();
        lemma_identities_told(originals, photos, relocations, front, fresh);
        let before = identities(originals, photos, relocations, front, fresh)->0;
        let after = identities(originals, photos, relocations, discovered, fresh)->0;
        let last = discovered.last();
        assert forall|k: int| 0 <= k < discovered.len() implies match known_id(
            originals,
            relocations,
            (#[trigger] discovered[k]).path@,
        ) {
            Some(id) => after.ids[k] == id,
            None => after.reserved.contains(after.ids[k]),
        } by {
            if k < front.len() {
                assert(front[k] == discovered[k]);
                if known_id(originals, relocations, discovered[k].path@) is None {
                    let i = choose|i: int|
                        0 <= i < before.reserved.len() && before.reserved[i] == before.ids[k];
                    assert(after.reserved[i] == after.ids[k]);
                }
            } else if known_id(originals, relocations, last.path@) is None {
                assert(after.reserved[before.reserved.len() as int] == after.ids[k]);
            }
        }
        assert forall|k: int, j: int|
            0 <= k < j < discovered.len() && known_id(
                originals,
                relocations,
                (#[trigger] discovered[k]).path@,
            ) is None && known_id(
                originals,
                relocations,
                (#[trigger] discovered[j]).path@,
            ) is None implies after.ids[k] != after.ids[j] by {
            assert(front[k] == discovered[k]);
            if j < front.len() {
                assert(front[j] == discovered[j]);
            } else {
                assert(before.reserved.contains(before.ids[k]));
            }
        }
        assert forall|i: int| 0 <= i < after.reserved.len() implies (#[trigger] after.reserved[i])
            == fresh[i] && !original_ids(originals).contains(after.reserved[i]) && !photo_ids(
            photos,
        ).contains(after.reserved[i]) by {
            if i < before.reserved.len() {
                assert(before.reserved[i] == after.reserved[i]);
            }
        }
        assert(after.reserved.no_duplicates()) by {
            assert forall|i: int, j: int|
                0 <= i < after.reserved.len() && 0 <= j < after.reserved.len() && i
                    != j implies after.reserved[i] != after.reserved[j] by {
                if i < before.reserved.len() && j < before.reserved.len() {
                    assert(before.reserved[i] != before.reserved[j]);
                } else if i < before.reserved.len() {
                    assert(before.reserved.contains(before.reserved[i]));
                } else {
                    assert(before.reserved.contains(before.reserved[j]));
                }
            }
        }
    }
}

/// A file that is relocated keeps the identity of the relocation, one that is known at its
/// Location keeps its own, and any other one gets a new identity that no Original File and
/// no Photo has; two new files never share one.
pub proof fn law_found_files_keep_their_identities(
    tables: ScanTables,
    discovered: Vec<DiscoveredOriginal>,
    relocations: Vec<ScanRelocation>,
    fresh: Vec<String>,
    settled: ScanIdentities,
    k: int,
    j: int,
)
    requires
        call_ensures(scan_identities, (&tables, &discovered, &relocations, &fresh), Ok(settled)),
        discovered.len() <= fresh.len(),
        originals_apart(tables.originals@),
        forall|a: int, b: int|
            0 <= a < b < tables.originals.len() ==> (
            #[trigger] tables.originals@[a]).relative_path@ != (
            #[trigger] tables.originals@[b]).relative_path@,
        0 <= k < discovered.len(),
        0 <= j < discovered.len(),
    ensures
        settled.ids.len() == discovered.len(),
        forall|r: int|
            0 <= r < relocations.len() && (#[trigger] relocations@[r]).path@ == discovered@[k].path@
                && (forall|q: int|
                r < q < relocations.len() ==> (#[trigger] relocations@[q]).path@
                    != discovered@[k].path@) ==> settled.ids@[k]@
                == relocations@[r].original_id@,
        forall|o: int|
            0 <= o < tables.originals.len() && (#[trigger] tables.originals@[o]).relative_path@
                == discovered@[k].path@ && (forall|r: int|
                0 <= r < relocations.len() ==> (#[trigger] relocations@[r]).path@
                    != discovered@[k].path@) ==> settled.ids@[k]@ == tables.originals@[o].id@,
        (forall|r: int|
            0 <= r < relocations.len() ==> (#[trigger] relocations@[r]).path@
                != discovered@[k].path@) && (forall|o: int|
            0 <= o < tables.originals.len() ==> (#[trigger] tables.originals@[o]).relative_path@
                != discovered@[k].path@) ==> {
            &&& exists|i: int|
                0 <= i < discovered.len() && (#[trigger] fresh@[i])@ == settled.ids@[k]@
            &&& forall|o: int|
                0 <= o < tables.originals.len() ==> (#[trigger] tables.originals@[o]).id@
                    != settled.ids@[k]@
            &&& forall|p: int|
                0 <= p < tables.photos.len() ==> (#[trigger] tables.photos@[p]).id@
                    != settled.ids@[k]@
            &&& j != k && (forall|r: int|
                0 <= r < relocations.len() ==> (#[trigger] relocations@[r]).path@
                    != discovered@[j].path@) && (forall|o: int|
                0 <= o < tables.originals.len() ==> (#[trigger] tables.originals@[o]).relative_path@
                    != discovered@[j].path@) ==> settled.ids@[j]@ != settled.ids@[k]@
        },
{
    let originals = tables@.originals;
    let photos = tables@.photos;
    lemma_identities_told(originals, photos, relocations@, discovered@, texts(fresh@));
    let told = settled@;
    assert(told.ids.len() == settled.ids.len());
    assert(told.ids[k] == settled.ids@[k]@);
    assert(told.ids[j] == settled.ids@[j]@);
    lemma_last_index_found(relocation_paths(relocations@), discovered@[k].path@);
    lemma_last_index_found(relocation_paths(relocations@), discovered@[j].path@);
    lemma_last_index_found(original_paths(originals), discovered@[k].path@);
    lemma_last_index_found(original_paths(originals), discovered@[j].path@);
    let to = last_index(relocation_paths(relocations@), discovered@[k].path@);
    let at = last_index(original_paths(originals), discovered@[k].path@);
    assert forall|o: int| 0 <= o < originals.len() implies originals[o] == (
    #[trigger] tables.originals@[o])@ && original_paths(originals)[o]
        == tables.originals@[o].relative_path@ && original_ids(originals)[o]
        == tables.originals@[o].id@ by {}
    assert forall|r: int| 0 <= r < relocations.len() implies relocation_paths(relocations@)[r] == (
    #[trigger] relocations@[r]).path@ by {}
    assert forall|r: int|
        0 <= r < relocations.len() && (#[trigger] relocations@[r]).path@ == discovered@[k].path@
            && (forall|q: int|
            r < q < relocations.len() ==> (#[trigger] relocations@[q]).path@
                != discovered@[k].path@) implies settled.ids@[k]@
        == relocations@[r].original_id@ by {
        assert(relocation_paths(relocations@).contains(relocation_paths(relocations@)[r]));
        lemma_last_index(relocation_paths(relocations@), discovered@[k].path@, r);
        assert(relocations@[to->0].path@ == discovered@[k].path@);
    }
    if to is Some {
        assert(relocations@[to->0].path@ == discovered@[k].path@);
    }
    if let Some(x) = last_index(relocation_paths(relocations@), discovered@[j].path@) {
        assert(relocations@[x].path@ == discovered@[j].path@);
    }
    if at is Some {
        assert(tables.originals@[at->0].relative_path@ == discovered@[k].path@);
    }
    if let Some(x) = last_index(original_paths(originals), discovered@[j].path@) {
        assert(tables.originals@[x].relative_path@ == discovered@[j].path@);
    }
    assert forall|o: int|
        0 <= o < tables.originals.len() && (#[trigger] tables.originals@[o]).relative_path@
            == discovered@[k].path@ && (forall|r: int|
            0 <= r < relocations.len() ==> (#[trigger] relocations@[r]).path@
                != discovered@[k].path@) implies settled.ids@[k]@ == tables.originals@[o].id@ by {
        assert(original_paths(originals)[o] == discovered@[k].path@);
        assert(original_paths(originals).contains(discovered@[k].path@));
        assert(at is Some);
        assert(at->0 == o) by {
            assert(tables.originals@[at->0].relative_path@ == tables.originals@[o].relative_path@);
        }
    }
    if known_id(originals, relocations@, discovered@[k].path@) is None {
        let i = choose|i: int|
            0 <= i < told.reserved.len() && told.reserved[i] == told.ids[k];
        assert(told.reserved[i] == texts(fresh@)[i]);
        assert(fresh@[i]@ == settled.ids@[k]@);
        assert forall|o: int| 0 <= o < tables.originals.len() implies (
        #[trigger] tables.originals@[o]).id@ != settled.ids@[k]@ by {
            assert(original_ids(originals).contains(original_ids(originals)[o]));
        }
        assert forall|p: int| 0 <= p < tables.photos.len() implies (
        #[trigger] tables.photos@[p]).id@ != settled.ids@[k]@ by {
            assert(photos[p] == tables.photos@[p]@);
            assert(photo_ids(photos).contains(photo_ids(photos)[p]));
        }
    }
}

} // verus!
