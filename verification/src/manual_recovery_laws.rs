//! What every batch of confirmed relocations keeps.
use crate::codec::{CaptureMetadataState, PreviewState, SelectionState};
use crate::error::PersistenceError;
use crate::manual_recovery::{
    admitted, all_admitted, all_bound, apply_manual_relocations, bound, destination_repeats,
    first_repeat, lemma_no_repeat, manually_relocated, photo_owners, requested_ids, unavailable_count,
    without_fingerprint, ManualRecovery, RequestedRelocation,
};
use crate::scan::TablesView;
use crate::scan_state::{
    original_ids, original_paths, pending_capture, photo_ids, photos_view, FingerprintView,
    OriginalView, PhotoRecord, PhotoView, ScanTables,
};
use crate::text::{last_index, lemma_last_index_found, texts};
use vstd::prelude::*;

verus! {

/// Identities and Locations of Original Files are apart, identities of Photos
/// too, and no two Photos share an Original File.
pub open spec fn tables_apart(tables: TablesView) -> bool {
    &&& original_ids(tables.originals).no_duplicates()
    &&& original_paths(tables.originals).no_duplicates()
    &&& photo_ids(tables.photos).no_duplicates()
    &&& photo_owners(tables.photos).no_duplicates()
}

/// A Photo that may be given up: nothing was decided about it, it has no saved
/// edits, is in no Album and in no Export.
pub open spec fn expendable(
    photo: PhotoView,
    members: Seq<Seq<char>>,
    exported: Seq<Seq<char>>,
) -> bool {
    photo.rating == 0 && photo.selection_state == SelectionState::Undecided
        && !photo.has_saved_edits && !members.contains(photo.id) && !exported.contains(photo.id)
}

/// What holds once the first relocations are admitted.
pub open spec fn freed(
    tables: TablesView,
    free: TablesView,
    relocations: Seq<RequestedRelocation>,
    n: int,
    members: Seq<Seq<char>>,
    exported: Seq<Seq<char>>,
) -> bool {
    &&& tables_apart(free)
    &&& forall|j: int, w: int|
        #![trigger relocations[j], free.originals[w]]
        0 <= j < n && 0 <= w < free.originals.len() && free.originals[w].relative_path
            == relocations[j].location->0@ ==> requested_ids(relocations).contains(
            free.originals[w].id,
        )
    &&& forall|j: int|
        0 <= j < n ==> (#[trigger] relocations[j]).location is Some && !destination_repeats(
            relocations,
            j,
        )
    &&& forall|w: int|
        0 <= w < free.originals.len() ==> tables.originals.contains(#[trigger] free.originals[w])
    &&& forall|w: int|
        0 <= w < tables.originals.len() && requested_ids(relocations).contains(
            (#[trigger] tables.originals[w]).id,
        ) ==> free.originals.contains(tables.originals[w])
    &&& forall|p: int|
        0 <= p < free.photos.len() ==> tables.photos.contains(#[trigger] free.photos[p])
    &&& forall|p: int|
        0 <= p < tables.photos.len() ==> free.photos.contains(#[trigger] tables.photos[p])
            || expendable(tables.photos[p], members, exported)
}

proof fn lemma_removed<A>(s: Seq<A>, i: int)
    requires
        0 <= i < s.len(),
    ensures
        s.remove(i).len() == s.len() - 1,
        forall|j: int| 0 <= j < i ==> #[trigger] s.remove(i)[j] == s[j],
        forall|j: int| i <= j < s.len() - 1 ==> #[trigger] s.remove(i)[j] == s[j + 1],
        forall|j: int|
            0 <= j < s.len() && j != i ==> s.remove(i).contains(#[trigger] s[j]),
        forall|j: int| 0 <= j < s.len() - 1 ==> s.contains(#[trigger] s.remove(i)[j]),
{
    let rest = s.remove(i);
    assert forall|j: int| 0 <= j < s.len() && j != i implies rest.contains(#[trigger] s[j]) by {
        if j < i {
            assert(rest[j] == s[j]);
        } else {
            assert(rest[j - 1] == s[j]);
        }
    }
    assert forall|j: int| 0 <= j < s.len() - 1 implies s.contains(#[trigger] rest[j]) by {
        if j < i {
            assert(rest[j] == s[j]);
        } else {
            assert(rest[j] == s[j + 1]);
        }
    }
}

proof fn lemma_retired_apart(tables: TablesView, after: TablesView, w: int, photo: Option<int>)
    requires
        tables_apart(tables),
        0 <= w < tables.originals.len(),
        after.originals == tables.originals.remove(w),
        match photo {
            Some(p) => 0 <= p < tables.photos.len() && after.photos == tables.photos.remove(p),
            None => after.photos == tables.photos,
        },
    ensures
        tables_apart(after),
{
    lemma_removed(tables.originals, w);
    let ids = original_ids(tables.originals);
    let paths = original_paths(tables.originals);
    assert forall|i: int, j: int|
        0 <= i < after.originals.len() && 0 <= j < after.originals.len() && i != j implies
        original_ids(after.originals)[i] != original_ids(after.originals)[j] && original_paths(
        after.originals,
    )[i] != original_paths(after.originals)[j] by {
        let a = if i < w { i } else { i + 1 };
        let b = if j < w { j } else { j + 1 };
        assert(ids[a] != ids[b]);
        assert(paths[a] != paths[b]);
    }
    match photo {
        Some(p) => {
            lemma_removed(tables.photos, p);
            assert forall|i: int, j: int|
                0 <= i < after.photos.len() && 0 <= j < after.photos.len() && i != j implies
                photo_ids(after.photos)[i] != photo_ids(after.photos)[j] && photo_owners(
                after.photos,
            )[i] != photo_owners(after.photos)[j] by {
                let a = if i < p { i } else { i + 1 };
                let b = if j < p { j } else { j + 1 };
                assert(photo_ids(tables.photos)[a] != photo_ids(tables.photos)[b]);
                assert(photo_owners(tables.photos)[a] != photo_owners(tables.photos)[b]);
            }
        },
        None => {},
    }
}

proof fn lemma_freed(
    tables: TablesView,
    relocations: Seq<RequestedRelocation>,
    n: nat,
    members: Seq<Seq<char>>,
    exported: Seq<Seq<char>>,
)
    requires
        n <= relocations.len(),
        tables_apart(tables),
        all_admitted(tables, relocations, n, members, exported) is Ok,
    ensures
        freed(
            tables,
            all_admitted(tables, relocations, n, members, exported)->Ok_0,
            relocations,
            n as int,
            members,
            exported,
        ),
    decreases n,
{
    if n == 0 {
        assert forall|w: int| 0 <= w < tables.originals.len() implies tables.originals.contains(
            #[trigger] tables.originals[w],
        ) by {}
        assert forall|p: int| 0 <= p < tables.photos.len() implies tables.photos.contains(
            #[trigger] tables.photos[p],
        ) by {}
    } else {
        let m = (n - 1) as nat;
        lemma_freed(tables, relocations, m, members, exported);
        let before = all_admitted(tables, relocations, m, members, exported)->Ok_0;
        let free = all_admitted(tables, relocations, n, members, exported)->Ok_0;
        let requested = requested_ids(relocations);
        let last = relocations[n - 1];
        let to = last.location->0@;
        assert(admitted(before, relocations, n - 1, members, exported) == Ok::<
            TablesView,
            PersistenceError,
        >(free));
        let place = last_index(original_paths(before.originals), to);
        lemma_last_index_found(original_paths(before.originals), to);
        if free == before {
            assert forall|j: int, w: int|
                #![trigger relocations[j], free.originals[w]]
                0 <= j < n && 0 <= w < free.originals.len() && free.originals[w].relative_path
                    == relocations[j].location->0@ implies requested.contains(
                free.originals[w].id,
            ) by {
                if j == n - 1 {
                    assert(original_paths(before.originals)[w] == to);
                    if place is Some {
                        assert(original_paths(before.originals)[place->0] == to);
                        assert(place->0 == w);
                        if before.originals[w].id == last.original_id@ {
                            assert(requested[n - 1] == last.original_id@);
                        } else if !requested.contains(before.originals[w].id) {
                            lemma_removed(before.originals, w);
                            assert(free.originals.len() == before.originals.len() - 1);
                        }
                    }
                }
            }
        } else {
            let w0 = place->0;
            let owner = before.originals[w0].id;
            let taken = last_index(photo_owners(before.photos), owner);
            lemma_last_index_found(photo_owners(before.photos), owner);
            lemma_removed(before.originals, w0);
            lemma_retired_apart(before, free, w0, taken);
            assert(original_paths(before.originals)[w0] == to);
            assert forall|j: int, w: int|
                #![trigger relocations[j], free.originals[w]]
                0 <= j < n && 0 <= w < free.originals.len() && free.originals[w].relative_path
                    == relocations[j].location->0@ implies requested.contains(
                free.originals[w].id,
            ) by {
                let v = if w < w0 { w } else { w + 1 };
                assert(free.originals[w] == before.originals[v]);
                if j == n - 1 {
                    assert(original_paths(before.originals)[v] == to);
                    assert(false);
                }
            }
            assert forall|w: int| 0 <= w < free.originals.len() implies tables.originals.contains(
                #[trigger] free.originals[w],
            ) by {
                let v = if w < w0 { w } else { w + 1 };
                assert(free.originals[w] == before.originals[v]);
            }
            assert forall|w: int|
                0 <= w < tables.originals.len() && requested.contains(
                    (#[trigger] tables.originals[w]).id,
                ) implies free.originals.contains(tables.originals[w]) by {
                let v = choose|v: int|
                    0 <= v < before.originals.len() && before.originals[v] == tables.originals[w];
                assert(before.originals[v] == tables.originals[w]);
                assert(v != w0);
            }
            match taken {
                Some(p0) => {
                    lemma_removed(before.photos, p0);
                    assert forall|p: int|
                        0 <= p < free.photos.len() implies tables.photos.contains(
                        #[trigger] free.photos[p],
                    ) by {
                        let v = if p < p0 { p } else { p + 1 };
                        assert(free.photos[p] == before.photos[v]);
                    }
                    assert forall|p: int| 0 <= p < tables.photos.len() implies free.photos.contains(
                        #[trigger] tables.photos[p],
                    ) || expendable(tables.photos[p], members, exported) by {
                        if before.photos.contains(tables.photos[p]) {
                            let v = choose|v: int|
                                0 <= v < before.photos.len() && before.photos[v]
                                    == tables.photos[p];
                            assert(before.photos[v] == tables.photos[p]);
                            if v == p0 {
                                assert(expendable(before.photos[p0], members, exported));
                            }
                        }
                    }
                },
                None => {
                    assert(free.photos == before.photos);
                },
            }
        }
    }
}

/// An Original File that was bound to a new Location.
pub open spec fn bound_original(row: OriginalView, relocation: RequestedRelocation) -> OriginalView {
    OriginalView {
        relative_path: relocation.location->0@,
        size: relocation.size,
        mtime_ms: relocation.mtime_ms,
        available: true,
        error_category: None,
        error_message: None,
        capture: pending_capture(),
        ..row
    }
}

/// A Photo whose Original File was bound to a new Location.
pub open spec fn bound_photo(row: PhotoView, relocation: RequestedRelocation) -> PhotoView {
    PhotoView {
        available: true,
        preview_state: PreviewState::InspectionPending,
        preview_source_revision: None,
        preview_width: None,
        preview_height: None,
        cache_revision: None,
        sort_path: relocation.location->0@,
        ..row
    }
}

/// The tables with the first relocations bound, row by row.
pub open spec fn rebound(
    free: TablesView,
    after: TablesView,
    relocations: Seq<RequestedRelocation>,
    n: int,
) -> bool {
    &&& after.originals.len() == free.originals.len()
    &&& after.photos.len() == free.photos.len()
    &&& forall|i: int|
        0 <= i < free.originals.len() ==> #[trigger] after.originals[i] == match last_index(
            requested_ids(relocations.take(n)),
            free.originals[i].id,
        ) {
            Some(j) => bound_original(free.originals[i], relocations[j]),
            None => free.originals[i],
        }
    &&& forall|i: int|
        0 <= i < free.photos.len() ==> #[trigger] after.photos[i] == match last_index(
            requested_ids(relocations.take(n)),
            free.photos[i].original_id,
        ) {
            Some(j) => bound_photo(free.photos[i], relocations[j]),
            None => free.photos[i],
        }
}

proof fn lemma_requested_push(relocations: Seq<RequestedRelocation>, n: int, id: Seq<char>)
    requires
        0 <= n < relocations.len(),
    ensures
        last_index(requested_ids(relocations.take(n + 1)), id) == if relocations[n].original_id@
            == id {
            Some(n)
        } else {
            last_index(requested_ids(relocations.take(n)), id)
        },
{
    let longer = requested_ids(relocations.take(n + 1));
    assert(longer.drop_last() =~= requested_ids(relocations.take(n)));
    assert(longer.last() == relocations[n].original_id@);
}

proof fn lemma_rebound(free: TablesView, relocations: Seq<RequestedRelocation>, n: nat)
    requires
        n <= relocations.len(),
        tables_apart(free),
        all_bound(free, relocations, n) is Ok,
    ensures
        rebound(free, all_bound(free, relocations, n)->Ok_0, relocations, n as int),
        n > 0 ==> original_ids(free.originals).contains(relocations[n - 1].original_id@)
            && photo_owners(free.photos).contains(relocations[n - 1].original_id@),
    decreases n,
{
    if n == 0 {
        assert(requested_ids(relocations.take(0)) =~= Seq::<Seq<char>>::empty());
    } else {
        let m = (n - 1) as nat;
        lemma_rebound(free, relocations, m);
        let before = all_bound(free, relocations, m)->Ok_0;
        let after = all_bound(free, relocations, n)->Ok_0;
        let last = relocations[n - 1];
        assert(bound(before, last) == Ok::<TablesView, PersistenceError>(after));
        assert forall|i: int| 0 <= i < free.originals.len() implies #[trigger] before.originals[i].id
            == free.originals[i].id by {}
        assert(original_ids(before.originals) =~= original_ids(free.originals));
        assert forall|i: int| 0 <= i < free.photos.len() implies #[trigger] before.photos[i].original_id
            == free.photos[i].original_id by {}
        assert(photo_owners(before.photos) =~= photo_owners(free.photos));
        lemma_last_index_found(original_ids(before.originals), last.original_id@);
        lemma_last_index_found(photo_owners(before.photos), last.original_id@);
        let o = last_index(original_ids(before.originals), last.original_id@)->0;
        let p = last_index(photo_owners(before.photos), last.original_id@)->0;
        assert(original_ids(free.originals)[o] == last.original_id@);
        assert(photo_owners(free.photos)[p] == last.original_id@);
        assert forall|i: int| 0 <= i < free.originals.len() implies #[trigger] after.originals[i]
            == match last_index(
            requested_ids(relocations.take(n as int)),
            free.originals[i].id,
        ) {
            Some(j) => bound_original(free.originals[i], relocations[j]),
            None => free.originals[i],
        } by {
            lemma_requested_push(relocations, n - 1, free.originals[i].id);
            if i != o {
                assert(original_ids(free.originals)[i] != original_ids(free.originals)[o]);
                assert(after.originals[i] == before.originals[i]);
            } else {
                assert(before.originals[o].id == last.original_id@);
                assert(after.originals[o] == bound_original(before.originals[o], last));
                assert(before.originals[o].kind == free.originals[o].kind);
            }
        }
        assert forall|i: int| 0 <= i < free.photos.len() implies #[trigger] after.photos[i]
            == match last_index(
            requested_ids(relocations.take(n as int)),
            free.photos[i].original_id,
        ) {
            Some(j) => bound_photo(free.photos[i], relocations[j]),
            None => free.photos[i],
        } by {
            lemma_requested_push(relocations, n - 1, free.photos[i].original_id);
            if i != p {
                assert(photo_owners(free.photos)[i] != photo_owners(free.photos)[p]);
                assert(after.photos[i] == before.photos[i]);
            } else {
                assert(after.photos[p] == bound_photo(before.photos[p], last));
            }
        }
    }
}

/// A batch of confirmed relocations keeps Original Files and Photos apart: no
/// two share an identity, a Location or an Original File afterwards.
pub proof fn law_manual_relocations_keep_rows_apart(
    tables: TablesView,
    relocations: Seq<RequestedRelocation>,
    members: Seq<Seq<char>>,
    exported: Seq<Seq<char>>,
)
    requires
        tables_apart(tables),
        manually_relocated(tables, relocations, members, exported) is Ok,
    ensures
        tables_apart(manually_relocated(tables, relocations, members, exported)->Ok_0),
{
    let free = all_admitted(tables, relocations, relocations.len(), members, exported)->Ok_0;
    let after = all_bound(free, relocations, relocations.len())->Ok_0;
    lemma_no_repeat(requested_ids(relocations));
    lemma_freed(tables, relocations, relocations.len(), members, exported);
    lemma_rebound(free, relocations, relocations.len());
    assert(relocations.take(relocations.len() as int) =~= relocations);
    let requested = requested_ids(relocations);
    assert(original_ids(after.originals) =~= original_ids(free.originals)) by {
        assert forall|i: int| 0 <= i < free.originals.len() implies original_ids(
            after.originals,
        )[i] == original_ids(free.originals)[i] by {
            assert(after.originals[i].id == free.originals[i].id);
        }
    }
    assert(photo_ids(after.photos) =~= photo_ids(free.photos)) by {
        assert forall|i: int| 0 <= i < free.photos.len() implies photo_ids(after.photos)[i]
            == photo_ids(free.photos)[i] by {
            assert(after.photos[i].id == free.photos[i].id);
        }
    }
    assert(photo_owners(after.photos) =~= photo_owners(free.photos)) by {
        assert forall|i: int| 0 <= i < free.photos.len() implies photo_owners(after.photos)[i]
            == photo_owners(free.photos)[i] by {
            assert(after.photos[i].original_id == free.photos[i].original_id);
        }
    }
    assert forall|i: int, j: int|
        0 <= i < after.originals.len() && 0 <= j < after.originals.len() && i != j implies
        original_paths(after.originals)[i] != original_paths(after.originals)[j] by {
        let a = last_index(requested, free.originals[i].id);
        let b = last_index(requested, free.originals[j].id);
        lemma_last_index_found(requested, free.originals[i].id);
        lemma_last_index_found(requested, free.originals[j].id);
        assert(original_ids(free.originals)[i] != original_ids(free.originals)[j]);
        assert(original_paths(free.originals)[i] != original_paths(free.originals)[j]);
        assert(after.originals[i] == match a {
            Some(k) => bound_original(free.originals[i], relocations[k]),
            None => free.originals[i],
        });
        assert(after.originals[j] == match b {
            Some(k) => bound_original(free.originals[j], relocations[k]),
            None => free.originals[j],
        });
        match (a, b) {
            (Some(x), Some(y)) => {
                assert(requested[x] == free.originals[i].id);
                assert(requested[y] == free.originals[j].id);
                assert(x != y);
                assert(relocations[x].location is Some && relocations[y].location is Some);
                if relocations[x].location->0@ == relocations[y].location->0@ {
                    if x < y {
                        assert(destination_repeats(relocations, y));
                    } else {
                        assert(destination_repeats(relocations, x));
                    }
                }
            },
            (Some(x), None) => {
                if relocations[x].location->0@ == free.originals[j].relative_path {
                    assert(requested.contains(free.originals[j].id));
                }
            },
            (None, Some(y)) => {
                if relocations[y].location->0@ == free.originals[i].relative_path {
                    assert(requested.contains(free.originals[i].id));
                }
            },
            (None, None) => {},
        }
    }
}

/// A batch of confirmed relocations gives no user state up: a Photo that is gone
/// afterwards was expendable, and every other Photo keeps its identity, what was
/// decided about it and its Original File.
pub proof fn law_manual_relocations_keep_user_state(
    tables: TablesView,
    relocations: Seq<RequestedRelocation>,
    members: Seq<Seq<char>>,
    exported: Seq<Seq<char>>,
    photo: PhotoView,
)
    requires
        tables_apart(tables),
        manually_relocated(tables, relocations, members, exported) is Ok,
        tables.photos.contains(photo),
        !expendable(photo, members, exported),
    ensures
        ({
            let after = manually_relocated(tables, relocations, members, exported)->Ok_0;
            exists|i: int|
                0 <= i < after.photos.len() && (#[trigger] after.photos[i]).id == photo.id
                    && after.photos[i].original_id == photo.original_id
                    && after.photos[i].selection_state == photo.selection_state
                    && after.photos[i].rating == photo.rating && after.photos[i].has_saved_edits
                    == photo.has_saved_edits && after.photos[i].removed == photo.removed
        }),
{
    let free = all_admitted(tables, relocations, relocations.len(), members, exported)->Ok_0;
    let after = all_bound(free, relocations, relocations.len())->Ok_0;
    lemma_freed(tables, relocations, relocations.len(), members, exported);
    lemma_rebound(free, relocations, relocations.len());
    let p = choose|p: int| 0 <= p < tables.photos.len() && tables.photos[p] == photo;
    assert(free.photos.contains(tables.photos[p]));
    let i = choose|i: int| 0 <= i < free.photos.len() && free.photos[i] == photo;
    assert(after.photos[i].id == photo.id);
}

/// Every Original File of a batch is available at its new Location afterwards,
/// with the observed facts, under its identity.
pub proof fn law_manual_relocations_bind_every_request(
    tables: TablesView,
    relocations: Seq<RequestedRelocation>,
    members: Seq<Seq<char>>,
    exported: Seq<Seq<char>>,
    k: int,
)
    requires
        tables_apart(tables),
        manually_relocated(tables, relocations, members, exported) is Ok,
        0 <= k < relocations.len(),
    ensures
        ({
            let after = manually_relocated(tables, relocations, members, exported)->Ok_0;
            exists|i: int|
                0 <= i < after.originals.len() && (#[trigger] after.originals[i]).id
                    == relocations[k].original_id@ && after.originals[i].available
                    && after.originals[i].relative_path == relocations[k].location->0@
                    && after.originals[i].size == relocations[k].size
                    && after.originals[i].mtime_ms == relocations[k].mtime_ms
        }),
{
    let free = all_admitted(tables, relocations, relocations.len(), members, exported)->Ok_0;
    let after = all_bound(free, relocations, relocations.len())->Ok_0;
    let requested = requested_ids(relocations);
    lemma_no_repeat(requested);
    lemma_freed(tables, relocations, relocations.len(), members, exported);
    lemma_rebound(free, relocations, relocations.len());
    lemma_bound_prefix(free, relocations, (k + 1) as nat, relocations.len());
    lemma_rebound(free, relocations, (k + 1) as nat);
    assert(relocations.take(relocations.len() as int) =~= relocations);
    let i = choose|i: int|
        0 <= i < free.originals.len() && original_ids(free.originals)[i]
            == relocations[k].original_id@;
    assert(original_ids(free.originals)[i] == free.originals[i].id);
    lemma_last_index_found(requested, free.originals[i].id);
    let j = last_index(requested, free.originals[i].id)->0;
    assert(requested[k] == free.originals[i].id);
    assert(j == k);
    assert(after.originals[i] == bound_original(free.originals[i], relocations[k]));
}

proof fn lemma_bound_prefix(
    free: TablesView,
    relocations: Seq<RequestedRelocation>,
    n: nat,
    m: nat,
)
    requires
        n <= m,
        all_bound(free, relocations, m) is Ok,
    ensures
        all_bound(free, relocations, n) is Ok,
    decreases m,
{
    if n < m {
        lemma_bound_prefix(free, relocations, n, (m - 1) as nat);
    }
}

/// Whether a batch of confirmed relocations turns stored tables into others.
pub open spec fn relocated(
    before: ScanTables,
    relocations: Seq<RequestedRelocation>,
    members: Seq<String>,
    exported: Seq<String>,
    after: ScanTables,
) -> bool {
    manually_relocated(before@, relocations, texts(members), texts(exported)) == Ok::<
        TablesView,
        PersistenceError,
    >(after@)
}

proof fn lemma_relocated(
    before: ScanTables,
    relocations: Seq<RequestedRelocation>,
    members: Seq<String>,
    exported: Seq<String>,
    after: ScanTables,
)
    requires
        tables_apart(before@),
        relocated(before, relocations, members, exported, after),
    ensures
        ({
            let free = all_admitted(
                before@,
                relocations,
                relocations.len(),
                texts(members),
                texts(exported),
            )->Ok_0;
            &&& freed(
                before@,
                free,
                relocations,
                relocations.len() as int,
                texts(members),
                texts(exported),
            )
            &&& all_bound(free, relocations, relocations.len()) == Ok::<
                TablesView,
                PersistenceError,
            >(after@)
            &&& rebound(free, after@, relocations, relocations.len() as int)
            &&& relocations.take(relocations.len() as int) == relocations
            &&& requested_ids(relocations).no_duplicates()
            &&& tables_apart(free)
            &&& after@.originals.len() == after.originals.len()
            &&& after@.photos.len() == after.photos.len()
            &&& after@.fingerprints.len() == after.fingerprints.len()
            &&& forall|k: int|
                0 <= k < relocations.len() ==> original_ids(free.originals).contains(
                    (#[trigger] relocations[k]).original_id@,
                ) && photo_owners(free.photos).contains(relocations[k].original_id@)
        }),
{
    let free = all_admitted(
        before@,
        relocations,
        relocations.len(),
        texts(members),
        texts(exported),
    )->Ok_0;
    lemma_no_repeat(requested_ids(relocations));
    lemma_freed(before@, relocations, relocations.len(), texts(members), texts(exported));
    lemma_rebound(free, relocations, relocations.len());
    assert(relocations.take(relocations.len() as int) =~= relocations);
    assert forall|k: int| 0 <= k < relocations.len() implies original_ids(
        free.originals,
    ).contains((#[trigger] relocations[k]).original_id@) && photo_owners(free.photos).contains(
        relocations[k].original_id@,
    ) by {
        lemma_bound_prefix(free, relocations, (k + 1) as nat, relocations.len());
        lemma_rebound(free, relocations, (k + 1) as nat);
    }
}

/// After a batch of confirmed relocations every relocated Original File is there, at its
/// new Location and with the facts that were observed of it, nothing is wrong with it
/// and its capture facts are yet to be read; its kind is what it was. Its Photo is there
/// too, told by the new Location, and waits for a Preview: it has none of the facts of
/// an earlier one.
pub proof fn law_relocated_photos_wait_for_a_preview(
    before: ScanTables,
    relocations: Seq<RequestedRelocation>,
    members: Seq<String>,
    exported: Seq<String>,
    after: ScanTables,
    k: int,
)
    requires
        tables_apart(before@),
        relocated(before, relocations, members, exported, after),
        0 <= k < relocations.len(),
    ensures
        relocations[k].location is Some,
        exists|o: int|
            0 <= o < after.originals.len() && (#[trigger] after.originals@[o]).id@
                == relocations[k].original_id@,
        forall|o: int|
            0 <= o < after.originals.len() && (#[trigger] after.originals@[o]).id@
                == relocations[k].original_id@ ==> {
                let row = after.originals@[o];
                &&& row.available
                &&& row.relative_path@ == relocations[k].location->0@
                &&& row.size == relocations[k].size
                &&& row.mtime_ms == relocations[k].mtime_ms
                &&& row.error_category is None
                &&& row.error_message is None
                &&& row.capture.state == CaptureMetadataState::Pending
                &&& row.capture.order_key is None
                &&& row.capture.field is None
                &&& row.capture.offset_minutes is None
                &&& row.capture.source_revision is None
                &&& forall|w: int|
                    0 <= w < before.originals.len() && (#[trigger] before.originals@[w]).id@
                        == relocations[k].original_id@ ==> row.kind == before.originals@[w].kind
            },
        exists|p: int|
            0 <= p < after.photos.len() && (#[trigger] after.photos@[p]).original_id@
                == relocations[k].original_id@,
        forall|p: int|
            0 <= p < after.photos.len() && (#[trigger] after.photos@[p]).original_id@
                == relocations[k].original_id@ ==> {
                let row = after.photos@[p];
                &&& row.available
                &&& row.preview_state == PreviewState::InspectionPending
                &&& row.preview_source_revision is None
                &&& row.preview_width is None
                &&& row.preview_height is None
                &&& row.cache_revision is None
                &&& row.sort_path@ == relocations[k].location->0@
            },
{
    lemma_relocated(before, relocations, members, exported, after);
    let free = all_admitted(
        before@,
        relocations,
        relocations.len(),
        texts(members),
        texts(exported),
    )->Ok_0;
    let id = relocations[k].original_id@;
    let requested = requested_ids(relocations);
    assert(requested[k] == id);
    lemma_last_index_found(requested, id);
    assert(last_index(requested, id) == Some(k));
    assert(relocations[k].location is Some);
    let o = choose|o: int| 0 <= o < free.originals.len() && original_ids(free.originals)[o] == id;
    assert(after@.originals[o] == after.originals@[o]@);
    assert(free.originals[o].id == id);
    assert(after.originals@[o].id@ == id);
    let p = choose|p: int| 0 <= p < free.photos.len() && photo_owners(free.photos)[p] == id;
    assert(after@.photos[p] == after.photos@[p]@);
    assert(free.photos[p].original_id == id);
    assert(after.photos@[p].original_id@ == id);
    assert forall|o: int|
        0 <= o < after.originals.len() && (#[trigger] after.originals@[o]).id@ == id implies {
        &&& after.originals@[o]@ == bound_original(free.originals[o], relocations[k])
        &&& after.originals@[o].capture@ == pending_capture()
        &&& forall|w: int|
            0 <= w < before.originals.len() && (#[trigger] before.originals@[w]).id@ == id
                ==> after.originals@[o].kind == before.originals@[w].kind
    } by {
        assert(after@.originals[o] == after.originals@[o]@);
        assert(after@.originals[o].id == free.originals[o].id);
        assert(before@.originals.contains(free.originals[o]));
        let v = choose|v: int|
            0 <= v < before@.originals.len() && before@.originals[v] == free.originals[o];
        assert forall|w: int|
            0 <= w < before.originals.len() && (#[trigger] before.originals@[w]).id@
                == id implies after.originals@[o].kind == before.originals@[w].kind by {
            assert(before@.originals[w] == before.originals@[w]@);
            assert(original_ids(before@.originals)[w] == original_ids(before@.originals)[v]);
            assert(v == w);
        }
    }
    assert forall|p: int|
        0 <= p < after.photos.len() && (#[trigger] after.photos@[p]).original_id@
            == id implies after.photos@[p]@ == bound_photo(free.photos[p], relocations[k]) by {
        assert(after@.photos[p] == after.photos@[p]@);
        assert(after@.photos[p].original_id == free.photos[p].original_id);
    }
}

/// A batch of confirmed relocations leaves every other Original File and Photo as it
/// was, and keeps what was decided about the Photos that it relocates.
pub proof fn law_manual_relocations_leave_the_rest(
    before: ScanTables,
    relocations: Seq<RequestedRelocation>,
    members: Seq<String>,
    exported: Seq<String>,
    after: ScanTables,
    o: int,
    p: int,
)
    requires
        tables_apart(before@),
        relocated(before, relocations, members, exported, after),
        0 <= o < after.originals.len(),
        0 <= p < after.photos.len(),
    ensures
        after.published == before.published,
        (forall|k: int|
            0 <= k < relocations.len() ==> (#[trigger] relocations[k]).original_id@
                != after.originals@[o].id@) ==> exists|w: int|
            0 <= w < before.originals.len() && (#[trigger] before.originals@[w])@
                == after.originals@[o]@,
        (forall|k: int|
            0 <= k < relocations.len() ==> (#[trigger] relocations[k]).original_id@
                != after.photos@[p].original_id@) ==> exists|q: int|
            0 <= q < before.photos.len() && (#[trigger] before.photos@[q])@ == after.photos@[p]@,
        exists|q: int|
            0 <= q < before.photos.len() && (#[trigger] before.photos@[q]).id@
                == after.photos@[p].id@ && before.photos@[q].original_id@
                == after.photos@[p].original_id@ && before.photos@[q].selection_state
                == after.photos@[p].selection_state && before.photos@[q].rating
                == after.photos@[p].rating && before.photos@[q].has_saved_edits
                == after.photos@[p].has_saved_edits && before.photos@[q].removed
                == after.photos@[p].removed,
{
    lemma_relocated(before, relocations, members, exported, after);
    let free = all_admitted(
        before@,
        relocations,
        relocations.len(),
        texts(members),
        texts(exported),
    )->Ok_0;
    let requested = requested_ids(relocations);
    assert(after@.originals[o] == after.originals@[o]@);
    assert(after@.photos[p] == after.photos@[p]@);
    assert(after@.originals[o].id == free.originals[o].id);
    assert(after@.photos[p].original_id == free.photos[p].original_id);
    lemma_last_index_found(requested, free.originals[o].id);
    lemma_last_index_found(requested, free.photos[p].original_id);
    assert(before@.originals.contains(free.originals[o]));
    assert(before@.photos.contains(free.photos[p]));
    let w = choose|w: int|
        0 <= w < before@.originals.len() && before@.originals[w] == free.originals[o];
    let q = choose|q: int| 0 <= q < before@.photos.len() && before@.photos[q] == free.photos[p];
    assert(before@.originals[w] == before.originals@[w]@);
    assert(before@.photos[q] == before.photos@[q]@);
    if requested.contains(free.originals[o].id) {
        let k = choose|k: int| 0 <= k < requested.len() && requested[k] == free.originals[o].id;
        assert(relocations[k].original_id@ == after.originals@[o].id@);
    }
    if requested.contains(free.photos[p].original_id) {
        let k = choose|k: int|
            0 <= k < requested.len() && requested[k] == free.photos[p].original_id;
        assert(relocations[k].original_id@ == after.photos@[p].original_id@);
    }
    lemma_published(before@, relocations, texts(members), texts(exported));
}

proof fn lemma_admitted_published(
    tables: TablesView,
    relocations: Seq<RequestedRelocation>,
    n: nat,
    members: Seq<Seq<char>>,
    exported: Seq<Seq<char>>,
)
    ensures
        all_admitted(tables, relocations, n, members, exported) matches Ok(free)
            ==> free.published == tables.published,
    decreases n,
{
    if n > 0 {
        lemma_admitted_published(tables, relocations, (n - 1) as nat, members, exported);
    }
}

proof fn lemma_bound_published(free: TablesView, relocations: Seq<RequestedRelocation>, n: nat)
    ensures
        all_bound(free, relocations, n) matches Ok(after) ==> after.published == free.published,
    decreases n,
{
    if n > 0 {
        lemma_bound_published(free, relocations, (n - 1) as nat);
    }
}

proof fn lemma_published(
    tables: TablesView,
    relocations: Seq<RequestedRelocation>,
    members: Seq<Seq<char>>,
    exported: Seq<Seq<char>>,
)
    ensures
        manually_relocated(tables, relocations, members, exported) matches Ok(after)
            ==> after.published == tables.published,
{
    lemma_admitted_published(tables, relocations, relocations.len(), members, exported);
    if let Ok(free) = all_admitted(tables, relocations, relocations.len(), members, exported) {
        lemma_bound_published(free, relocations, relocations.len());
    }
}

spec fn lost(photo: PhotoView, members: Seq<Seq<char>>, exported: Seq<Seq<char>>) -> bool {
    photo.rating == 0 && photo.selection_state == SelectionState::Undecided
        && !photo.has_saved_edits && !members.contains(photo.id) && !exported.contains(photo.id)
}

spec fn reason_holds(
    tables: TablesView,
    relocations: Seq<RequestedRelocation>,
    k: int,
    members: Seq<Seq<char>>,
    exported: Seq<Seq<char>>,
) -> bool {
    &&& relocations[k].location is Some
    &&& exists|o: int|
        0 <= o < tables.originals.len() && (#[trigger] tables.originals[o]).id
            == relocations[k].original_id@ && !tables.originals[o].available
            && relocations[k].named_kind == Some(tables.originals[o].kind)
    &&& forall|w: int|
        0 <= w < tables.originals.len() && (#[trigger] tables.originals[w]).relative_path
            == relocations[k].location->0@ && !requested_ids(relocations).contains(
            tables.originals[w].id,
        ) ==> relocations[k].retire_destination && forall|p: int|
            0 <= p < tables.photos.len() && (#[trigger] tables.photos[p]).original_id
                == tables.originals[w].id ==> lost(tables.photos[p], members, exported)
}

proof fn lemma_admitted_reasons(
    tables: TablesView,
    relocations: Seq<RequestedRelocation>,
    n: nat,
    members: Seq<Seq<char>>,
    exported: Seq<Seq<char>>,
)
    requires
        n <= relocations.len(),
        tables_apart(tables),
        all_admitted(tables, relocations, n, members, exported) is Ok,
    ensures
        ({
            let free = all_admitted(tables, relocations, n, members, exported)->Ok_0;
            &&& forall|k: int|
                0 <= k < n ==> #[trigger] reason_holds(tables, relocations, k, members, exported)
            &&& forall|w: int|
                0 <= w < tables.originals.len() ==> free.originals.contains(
                    #[trigger] tables.originals[w],
                ) || exists|j: int|
                    0 <= j < n && (#[trigger] relocations[j]).location is Some
                        && relocations[j].location->0@ == tables.originals[w].relative_path
        }),
    decreases n,
{
    if n > 0 {
        let m = (n - 1) as nat;
        lemma_admitted_reasons(tables, relocations, m, members, exported);
        lemma_freed(tables, relocations, m, members, exported);
        lemma_freed(tables, relocations, n, members, exported);
        let before = all_admitted(tables, relocations, m, members, exported)->Ok_0;
        let after = all_admitted(tables, relocations, n, members, exported)->Ok_0;
        let k = n - 1;
        let relocation = relocations[k];
        assert(admitted(before, relocations, k, members, exported) == Ok::<
            TablesView,
            PersistenceError,
        >(after));
        lemma_last_index_found(original_ids(before.originals), relocation.original_id@);
        let o = last_index(original_ids(before.originals), relocation.original_id@)->0;
        assert(tables.originals.contains(before.originals[o]));
        let v = choose|v: int|
            0 <= v < tables.originals.len() && tables.originals[v] == before.originals[o];
        assert(original_ids(before.originals)[o] == relocation.original_id@);
        assert(tables.originals[v].id == relocation.original_id@);
        let to = relocation.location->0@;
        lemma_last_index_found(original_paths(before.originals), to);
        assert forall|w: int|
            0 <= w < tables.originals.len() && (#[trigger] tables.originals[w]).relative_path == to
                && !requested_ids(relocations).contains(
                tables.originals[w].id,
            ) implies relocation.retire_destination && forall|p: int|
            0 <= p < tables.photos.len() && (#[trigger] tables.photos[p]).original_id
                == tables.originals[w].id ==> lost(tables.photos[p], members, exported) by {
            if !before.originals.contains(tables.originals[w]) {
                let j = choose|j: int|
                    0 <= j < m && (#[trigger] relocations[j]).location is Some
                        && relocations[j].location->0@ == tables.originals[w].relative_path;
                assert(destination_repeats(relocations, k));
            }
            let u = choose|u: int|
                0 <= u < before.originals.len() && before.originals[u] == tables.originals[w];
            assert(original_paths(before.originals)[u] == to);
            let x = last_index(original_paths(before.originals), to)->0;
            assert(original_paths(before.originals)[x] == to);
            assert(x == u);
            assert(requested_ids(relocations)[k] == relocation.original_id@);
            let owner = before.originals[u].id;
            lemma_last_index_found(photo_owners(before.photos), owner);
            assert forall|p: int|
                0 <= p < tables.photos.len() && (#[trigger] tables.photos[p]).original_id
                    == tables.originals[w].id implies lost(tables.photos[p], members, exported) by {
                if before.photos.contains(tables.photos[p]) {
                    let q = choose|q: int|
                        0 <= q < before.photos.len() && before.photos[q] == tables.photos[p];
                    assert(photo_owners(before.photos)[q] == owner);
                    let y = last_index(photo_owners(before.photos), owner)->0;
                    assert(photo_owners(before.photos)[y] == owner);
                    assert(y == q);
                }
            }
        }
        assert(reason_holds(tables, relocations, k, members, exported));
        assert forall|w: int| 0 <= w < tables.originals.len() implies after.originals.contains(
            #[trigger] tables.originals[w],
        ) || exists|j: int|
            0 <= j < n && (#[trigger] relocations[j]).location is Some
                && relocations[j].location->0@ == tables.originals[w].relative_path by {
            if before.originals.contains(tables.originals[w]) {
                let u = choose|u: int|
                    0 <= u < before.originals.len() && before.originals[u] == tables.originals[w];
                if after.originals != before.originals {
                    let x = last_index(original_paths(before.originals), to)->0;
                    assert(after.originals == before.originals.remove(x));
                    lemma_removed(before.originals, x);
                    if u == x {
                        assert(original_paths(before.originals)[x] == to);
                        assert(relocations[k].location->0@ == tables.originals[w].relative_path);
                    } else {
                        assert(after.originals.contains(before.originals[u]));
                    }
                } else {
                    assert(after.originals.contains(before.originals[u]));
                }
            } else {
                let j = choose|j: int|
                    0 <= j < m && (#[trigger] relocations[j]).location is Some
                        && relocations[j].location->0@ == tables.originals[w].relative_path;
                assert(relocations[j].location->0@ == tables.originals[w].relative_path);
            }
        }
    }
}

/// A batch of confirmed relocations is carried out only where each one names a missing
/// Original File of the kind that was found, once, at a Location of its own. A file that
/// stands at such a Location and is not relocated itself is given up only where that was
/// confirmed, and only with a Photo about which nothing was decided, that is in no Album
/// and has no Export.
pub proof fn law_manual_relocations_are_confirmed(
    before: ScanTables,
    relocations: Seq<RequestedRelocation>,
    members: Seq<String>,
    exported: Seq<String>,
    after: ScanTables,
    k: int,
)
    requires
        tables_apart(before@),
        relocated(before, relocations, members, exported, after),
        0 <= k < relocations.len(),
    ensures
        relocations[k].location is Some,
        exists|o: int|
            0 <= o < before.originals.len() && (#[trigger] before.originals@[o]).id@
                == relocations[k].original_id@ && !before.originals@[o].available
                && relocations[k].named_kind == Some(before.originals@[o].kind),
        forall|j: int|
            0 <= j < relocations.len() && j != k ==> (#[trigger] relocations[j]).original_id@
                != relocations[k].original_id@ && relocations[j].location->0@
                != relocations[k].location->0@,
        forall|w: int, p: int|
            0 <= w < before.originals.len() && 0 <= p < before.photos.len() && (
            #[trigger] before.originals@[w]).relative_path@ == relocations[k].location->0@ && (
            forall|j: int|
                0 <= j < relocations.len() ==> (#[trigger] relocations[j]).original_id@
                    != before.originals@[w].id@) ==> {
                &&& relocations[k].retire_destination
                &&& (#[trigger] before.photos@[p]).original_id@ == before.originals@[w].id@ ==> {
                    &&& before.photos@[p].rating == 0
                    &&& before.photos@[p].selection_state == SelectionState::Undecided
                    &&& !before.photos@[p].has_saved_edits
                    &&& forall|m: int|
                        0 <= m < members.len() ==> (#[trigger] members[m])@
                            != before.photos@[p].id@
                    &&& forall|m: int|
                        0 <= m < exported.len() ==> (#[trigger] exported[m])@
                            != before.photos@[p].id@
                }
            },
{
    lemma_relocated(before, relocations, members, exported, after);
    lemma_admitted_reasons(
        before@,
        relocations,
        relocations.len(),
        texts(members),
        texts(exported),
    );
    assert(reason_holds(before@, relocations, k, texts(members), texts(exported)));
    let o = choose|o: int|
        0 <= o < before@.originals.len() && (#[trigger] before@.originals[o]).id
            == relocations[k].original_id@ && !before@.originals[o].available
            && relocations[k].named_kind == Some(before@.originals[o].kind);
    assert(before@.originals[o] == before.originals@[o]@);
    assert(before.originals@[o].id@ == relocations[k].original_id@);
    let requested = requested_ids(relocations);
    assert forall|j: int| 0 <= j < relocations.len() && j != k implies (
    #[trigger] relocations[j]).original_id@ != relocations[k].original_id@
        && relocations[j].location->0@ != relocations[k].location->0@ by {
        assert(requested[j] != requested[k]);
        assert(relocations[k].location is Some && !destination_repeats(relocations, k));
        assert(relocations[j].location is Some && !destination_repeats(relocations, j));
        if relocations[j].location->0@ == relocations[k].location->0@ {
            if j < k {
                assert(destination_repeats(relocations, k));
            } else {
                assert(destination_repeats(relocations, j));
            }
        }
    }
    assert forall|w: int, p: int|
        0 <= w < before.originals.len() && 0 <= p < before.photos.len() && (
        #[trigger] before.originals@[w]).relative_path@ == relocations[k].location->0@ && (forall|
            j: int,
        |
            0 <= j < relocations.len() ==> (#[trigger] relocations[j]).original_id@
                != before.originals@[w].id@) implies {
        &&& relocations[k].retire_destination
        &&& (#[trigger] before.photos@[p]).original_id@ == before.originals@[w].id@ ==> {
            &&& before.photos@[p].rating == 0
            &&& before.photos@[p].selection_state == SelectionState::Undecided
            &&& !before.photos@[p].has_saved_edits
            &&& forall|m: int|
                0 <= m < members.len() ==> (#[trigger] members[m])@ != before.photos@[p].id@
            &&& forall|m: int|
                0 <= m < exported.len() ==> (#[trigger] exported[m])@ != before.photos@[p].id@
        }
    } by {
        assert(before@.originals[w] == before.originals@[w]@);
        assert(before@.photos[p] == before.photos@[p]@);
        if requested.contains(before@.originals[w].id) {
            let j = choose|j: int|
                0 <= j < requested.len() && requested[j] == before@.originals[w].id;
            assert(relocations[j].original_id@ == before.originals@[w].id@);
        }
        assert(relocations[k].retire_destination);
        if before.photos@[p].original_id@ == before.originals@[w].id@ {
            assert(lost(before@.photos[p], texts(members), texts(exported)));
            assert forall|m: int| 0 <= m < members.len() implies (#[trigger] members[m])@
                != before.photos@[p].id@ by {
                assert(texts(members)[m] == members[m]@);
            }
            assert forall|m: int| 0 <= m < exported.len() implies (#[trigger] exported[m])@
                != before.photos@[p].id@ by {
                assert(texts(exported)[m] == exported[m]@);
            }
        }
    }
}

proof fn lemma_without_fingerprint(rows: Seq<FingerprintView>, id: Seq<char>, row: FingerprintView)
    ensures
        without_fingerprint(rows, id).contains(row) <==> rows.contains(row) && row.original_id
            != id,
    decreases rows.len(),
{
    if rows.len() > 0 {
        let front = rows.drop_last();
        let before = without_fingerprint(front, id);
        lemma_without_fingerprint(front, id, row);
        assert(rows =~= front.push(rows.last()));
        assert(rows.contains(row) <==> front.contains(row) || row == rows.last()) by {
            if front.contains(row) {
                let i = choose|i: int| 0 <= i < front.len() && front[i] == row;
                assert(rows[i] == row);
            }
            if row == rows.last() {
                assert(rows[rows.len() - 1] == row);
            }
        }
        let pushed = before.push(rows.last());
        assert(pushed.contains(row) <==> before.contains(row) || row == rows.last()) by {
            if before.contains(row) {
                let i = choose|i: int| 0 <= i < before.len() && before[i] == row;
                assert(pushed[i] == row);
            }
            if row == rows.last() {
                assert(pushed[before.len() as int] == row);
            }
        }
    }
}

proof fn lemma_admitted_fingerprints(
    tables: TablesView,
    relocations: Seq<RequestedRelocation>,
    n: nat,
    members: Seq<Seq<char>>,
    exported: Seq<Seq<char>>,
    row: FingerprintView,
)
    requires
        n <= relocations.len(),
        tables_apart(tables),
        all_admitted(tables, relocations, n, members, exported) is Ok,
    ensures
        ({
            let free = all_admitted(tables, relocations, n, members, exported)->Ok_0;
            &&& free.fingerprints.contains(row) ==> tables.fingerprints.contains(row) && (
            original_ids(tables.originals).contains(row.original_id) ==> original_ids(
                free.originals,
            ).contains(row.original_id))
            &&& tables.fingerprints.contains(row) && original_ids(free.originals).contains(
                row.original_id,
            ) ==> free.fingerprints.contains(row)
        }),
    decreases n,
{
    if n > 0 {
        let m = (n - 1) as nat;
        lemma_admitted_fingerprints(tables, relocations, m, members, exported, row);
        lemma_freed(tables, relocations, m, members, exported);
        let before = all_admitted(tables, relocations, m, members, exported)->Ok_0;
        let after = all_admitted(tables, relocations, n, members, exported)->Ok_0;
        let k = n - 1;
        let to = relocations[k].location->0@;
        assert(admitted(before, relocations, k, members, exported) == Ok::<
            TablesView,
            PersistenceError,
        >(after));
        if after.originals != before.originals || after.fingerprints != before.fingerprints {
            lemma_last_index_found(original_paths(before.originals), to);
            let x = last_index(original_paths(before.originals), to)->0;
            let owner = before.originals[x].id;
            assert(after.originals == before.originals.remove(x));
            assert(after.fingerprints == without_fingerprint(before.fingerprints, owner));
            lemma_without_fingerprint(before.fingerprints, owner, row);
            let id = row.original_id;
            if original_ids(before.originals).contains(id) && id != owner {
                let u = choose|u: int|
                    0 <= u < before.originals.len() && original_ids(before.originals)[u] == id;
                if u < x {
                    assert(original_ids(after.originals)[u] == id);
                } else {
                    assert(original_ids(after.originals)[u - 1] == id);
                }
            }
            if original_ids(after.originals).contains(id) {
                let u = choose|u: int|
                    0 <= u < after.originals.len() && original_ids(after.originals)[u] == id;
                let v = if u < x {
                    u
                } else {
                    u + 1
                };
                assert(original_ids(before.originals)[v] == id);
                assert(original_ids(before.originals)[x] == owner);
            }
        }
    }
}

proof fn lemma_bound_fingerprints(free: TablesView, relocations: Seq<RequestedRelocation>, n: nat)
    requires
        n <= relocations.len(),
        all_bound(free, relocations, n) is Ok,
    ensures
        ({
            let after = all_bound(free, relocations, n)->Ok_0;
            &&& after.fingerprints.len() == free.fingerprints.len()
            &&& forall|i: int|
                0 <= i < free.fingerprints.len() ==> {
                    let row = #[trigger] after.fingerprints[i];
                    let old_row = free.fingerprints[i];
                    &&& row.original_id == old_row.original_id
                    &&& row.digest == old_row.digest
                    &&& match last_index(requested_ids(relocations.take(n as int)), row.original_id) {
                        Some(j) => row.size == relocations[j].size && row.mtime_ms
                            == relocations[j].mtime_ms,
                        None => row == old_row,
                    }
                }
        }),
    decreases n,
{
    if n > 0 {
        let m = (n - 1) as nat;
        lemma_bound_fingerprints(free, relocations, m);
        let before = all_bound(free, relocations, m)->Ok_0;
        let after = all_bound(free, relocations, n)->Ok_0;
        assert(bound(before, relocations[n - 1]) == Ok::<TablesView, PersistenceError>(after));
        assert forall|i: int| 0 <= i < free.fingerprints.len() implies {
            let row = #[trigger] after.fingerprints[i];
            let old_row = free.fingerprints[i];
            &&& row.original_id == old_row.original_id
            &&& row.digest == old_row.digest
            &&& match last_index(requested_ids(relocations.take(n as int)), row.original_id) {
                Some(j) => row.size == relocations[j].size && row.mtime_ms
                    == relocations[j].mtime_ms,
                None => row == old_row,
            }
        } by {
            let id = free.fingerprints[i].original_id;
            assert(before.fingerprints[i].original_id == id);
            lemma_requested_push(relocations, m as int, id);
        }
    } else {
        assert(relocations.take(0) =~= Seq::<RequestedRelocation>::empty());
        assert(requested_ids(relocations.take(0)) =~= Seq::<Seq<char>>::empty());
    }
}

/// A batch of confirmed relocations keeps the fingerprint of every file that stays, which
/// speaks of the revision that was observed where the file was relocated. The fingerprint
/// of a file that was given up goes with it.
pub proof fn law_manual_relocations_keep_fingerprints(
    before: ScanTables,
    relocations: Seq<RequestedRelocation>,
    members: Seq<String>,
    exported: Seq<String>,
    after: ScanTables,
    i: int,
    f: int,
    o: int,
)
    requires
        tables_apart(before@),
        relocated(before, relocations, members, exported, after),
        0 <= i < after.fingerprints.len(),
        0 <= f < before.fingerprints.len(),
        0 <= o < after.originals.len(),
    ensures
        exists|j: int|
            0 <= j < before.fingerprints.len() && (#[trigger] before.fingerprints@[j]).original_id@
                == after.fingerprints@[i].original_id@ && before.fingerprints@[j].digest@
                == after.fingerprints@[i].digest@ && ((forall|k: int|
                0 <= k < relocations.len() ==> (#[trigger] relocations[k]).original_id@
                    != after.fingerprints@[i].original_id@) ==> before.fingerprints@[j]@
                == after.fingerprints@[i]@),
        forall|k: int|
            0 <= k < relocations.len() && (#[trigger] relocations[k]).original_id@
                == after.fingerprints@[i].original_id@ ==> after.fingerprints@[i].size
                == relocations[k].size && after.fingerprints@[i].mtime_ms
                == relocations[k].mtime_ms,
        before.fingerprints@[f].original_id@ == after.originals@[o].id@ ==> exists|j: int|
            0 <= j < after.fingerprints.len() && (#[trigger] after.fingerprints@[j]).original_id@
                == before.fingerprints@[f].original_id@ && after.fingerprints@[j].digest@
                == before.fingerprints@[f].digest@,
        (exists|w: int|
            0 <= w < before.originals.len() && (#[trigger] before.originals@[w]).id@
                == after.fingerprints@[i].original_id@) ==> exists|w: int|
            0 <= w < after.originals.len() && (#[trigger] after.originals@[w]).id@
                == after.fingerprints@[i].original_id@,
{
    lemma_relocated(before, relocations, members, exported, after);
    let n = relocations.len();
    let free = all_admitted(before@, relocations, n, texts(members), texts(exported))->Ok_0;
    lemma_bound_fingerprints(free, relocations, n);
    let row = after@.fingerprints[i];
    let old_row = free.fingerprints[i];
    assert(row == after.fingerprints@[i]@);
    lemma_admitted_fingerprints(before@, relocations, n, texts(members), texts(exported), old_row);
    assert(free.fingerprints.contains(old_row));
    let j = choose|j: int| 0 <= j < before@.fingerprints.len() && before@.fingerprints[j] == old_row;
    assert(before@.fingerprints[j] == before.fingerprints@[j]@);
    lemma_last_index_found(requested_ids(relocations), row.original_id);
    assert forall|k: int|
        0 <= k < relocations.len() && (#[trigger] relocations[k]).original_id@
            == after.fingerprints@[i].original_id@ implies after.fingerprints@[i].size
        == relocations[k].size && after.fingerprints@[i].mtime_ms == relocations[k].mtime_ms by {
        assert(requested_ids(relocations)[k] == row.original_id);
        let x = last_index(requested_ids(relocations), row.original_id)->0;
        assert(requested_ids(relocations)[x] == row.original_id);
        assert(x == k);
    }
    if forall|k: int|
        0 <= k < relocations.len() ==> (#[trigger] relocations[k]).original_id@
            != after.fingerprints@[i].original_id@ {
        if last_index(requested_ids(relocations), row.original_id) is Some {
            let x = last_index(requested_ids(relocations), row.original_id)->0;
            assert(requested_ids(relocations)[x] == row.original_id);
            assert(relocations[x].original_id@ != row.original_id);
        }
    }
    if before.fingerprints@[f].original_id@ == after.originals@[o].id@ {
        let kept = before@.fingerprints[f];
        assert(kept == before.fingerprints@[f]@);
        assert(before@.fingerprints.contains(kept));
        lemma_admitted_fingerprints(before@, relocations, n, texts(members), texts(exported), kept);
        assert(after@.originals[o] == after.originals@[o]@);
        assert(original_ids(free.originals)[o] == kept.original_id);
        let g = choose|g: int| 0 <= g < free.fingerprints.len() && free.fingerprints[g] == kept;
        assert(after@.fingerprints[g] == after.fingerprints@[g]@);
        assert(after.fingerprints@[g].original_id@ == before.fingerprints@[f].original_id@);
    }
    if exists|w: int|
        0 <= w < before.originals.len() && (#[trigger] before.originals@[w]).id@
            == after.fingerprints@[i].original_id@ {
        let w = choose|w: int|
            0 <= w < before.originals.len() && (#[trigger] before.originals@[w]).id@
                == after.fingerprints@[i].original_id@;
        assert(before@.originals[w] == before.originals@[w]@);
        assert(original_ids(before@.originals)[w] == old_row.original_id);
        assert(original_ids(free.originals).contains(old_row.original_id));
        let u = choose|u: int|
            0 <= u < free.originals.len() && original_ids(free.originals)[u] == old_row.original_id;
        assert(after@.originals[u] == after.originals@[u]@);
        assert(after.originals@[u].id@ == after.fingerprints@[i].original_id@);
    }
}

proof fn lemma_unavailable(rows: Seq<PhotoRecord>)
    ensures
        unavailable_count(photos_view(rows)) == rows.filter(
            |row: PhotoRecord| !row.available,
        ).len(),
    decreases rows.len(),
{
    reveal(Seq::filter);
    if rows.len() > 0 {
        lemma_unavailable(rows.drop_last());
        assert(photos_view(rows).drop_last() =~= photos_view(rows.drop_last()));
    }
}

/// A batch of confirmed relocations tells how many Photos it relocated and how many are
/// not there afterwards. An empty batch is refused.
pub proof fn law_manual_relocations_are_counted(
    tables: ScanTables,
    relocations: Vec<RequestedRelocation>,
    members: Vec<String>,
    exported: Vec<String>,
    result: Result<ManualRecovery, PersistenceError>,
)
    requires
        call_ensures(
            apply_manual_relocations,
            (&tables, &relocations, &members, &exported),
            result,
        ),
    ensures
        result matches Ok(done) ==> {
            &&& relocated(tables, relocations@, members@, exported@, done.tables)
            &&& done.applied.relocated_photos == relocations.len()
            &&& done.applied.unavailable_photos == done.tables.photos@.filter(
                |row: PhotoRecord| !row.available,
            ).len()
        },
        relocations.len() == 0 ==> result == Err::<ManualRecovery, PersistenceError>(
            PersistenceError::InvalidRecovery,
        ),
{
    if let Ok(done) = result {
        lemma_unavailable(done.tables.photos@);
    }
}

spec fn reason_told(
    tables: TablesView,
    relocations: Seq<RequestedRelocation>,
    k: int,
    members: Seq<Seq<char>>,
    reason: Seq<char>,
) -> bool {
    &&& 0 <= k < relocations.len()
    &&& reason == "invalid-location"@ || reason == "colliding"@ || reason == "stale"@ || reason
        == "kind-mismatch"@ || reason == "occupied"@
    &&& reason == "invalid-location"@ ==> relocations[k].location is None
    &&& reason == "colliding"@ ==> exists|j: int|
        0 <= j < k && ((#[trigger] relocations[j]).original_id@ == relocations[k].original_id@ || (
        relocations[j].location is Some && relocations[k].location is Some
            && relocations[j].location->0@ == relocations[k].location->0@))
    &&& reason == "kind-mismatch"@ ==> exists|o: int|
        0 <= o < tables.originals.len() && (#[trigger] tables.originals[o]).id
            == relocations[k].original_id@ && !tables.originals[o].available
            && relocations[k].named_kind != Some(tables.originals[o].kind)
    &&& reason == "stale"@ ==> (forall|o: int|
        0 <= o < tables.originals.len() && (#[trigger] tables.originals[o]).id
            == relocations[k].original_id@ ==> tables.originals[o].available) || !photo_owners(
        tables.photos,
    ).contains(relocations[k].original_id@)
    &&& reason == "occupied"@ ==> exists|w: int|
        0 <= w < tables.originals.len() && (#[trigger] tables.originals[w]).relative_path
            == relocations[k].location->0@ && relocations[k].location is Some && !requested_ids(
            relocations,
        ).contains(tables.originals[w].id) && (relocations[k].retire_destination ==> exists|p: int|
            0 <= p < tables.photos.len() && (#[trigger] tables.photos[p]).original_id
                == tables.originals[w].id && (tables.photos[p].rating != 0
                || tables.photos[p].selection_state != SelectionState::Undecided
                || tables.photos[p].has_saved_edits || members.contains(tables.photos[p].id)))
}

proof fn lemma_reason_names()
    ensures
        "invalid-location"@ != "colliding"@,
        "invalid-location"@ != "stale"@,
        "invalid-location"@ != "kind-mismatch"@,
        "invalid-location"@ != "occupied"@,
        "colliding"@ != "stale"@,
        "colliding"@ != "kind-mismatch"@,
        "colliding"@ != "occupied"@,
        "stale"@ != "kind-mismatch"@,
        "stale"@ != "occupied"@,
        "kind-mismatch"@ != "occupied"@,
{
    reveal_strlit("invalid-location");
    reveal_strlit("colliding");
    reveal_strlit("stale");
    reveal_strlit("kind-mismatch");
    reveal_strlit("occupied");
    assert("invalid-location"@.len() == 16);
    assert("colliding"@.len() == 9);
    assert("stale"@.len() == 5);
    assert("kind-mismatch"@.len() == 13);
    assert("occupied"@.len() == 8);
}

proof fn lemma_admitted_photos(
    tables: TablesView,
    relocations: Seq<RequestedRelocation>,
    n: nat,
    members: Seq<Seq<char>>,
    exported: Seq<Seq<char>>,
    photo: PhotoView,
)
    requires
        n <= relocations.len(),
        tables.photos.contains(photo),
        requested_ids(relocations).contains(photo.original_id),
        all_admitted(tables, relocations, n, members, exported) is Ok,
    ensures
        all_admitted(tables, relocations, n, members, exported)->Ok_0.photos.contains(photo),
    decreases n,
{
    if n > 0 {
        let m = (n - 1) as nat;
        lemma_admitted_photos(tables, relocations, m, members, exported, photo);
        let before = all_admitted(tables, relocations, m, members, exported)->Ok_0;
        let after = all_admitted(tables, relocations, n, members, exported)->Ok_0;
        let to = relocations[n - 1].location->0@;
        assert(admitted(before, relocations, n - 1, members, exported) == Ok::<
            TablesView,
            PersistenceError,
        >(after));
        if after.photos != before.photos {
            let x = last_index(original_paths(before.originals), to)->0;
            let owner = before.originals[x].id;
            let p = last_index(photo_owners(before.photos), owner)->0;
            lemma_last_index_found(photo_owners(before.photos), owner);
            assert(after.photos == before.photos.remove(p));
            let q = choose|q: int| 0 <= q < before.photos.len() && before.photos[q] == photo;
            assert(photo_owners(before.photos)[p] == owner);
            assert(q != p);
            if q < p {
                assert(after.photos[q] == photo);
            } else {
                assert(after.photos[q - 1] == photo);
            }
        }
    }
}

proof fn lemma_admission_refused(
    tables: TablesView,
    relocations: Seq<RequestedRelocation>,
    n: nat,
    members: Seq<Seq<char>>,
    exported: Seq<Seq<char>>,
) -> (k: int)
    requires
        n <= relocations.len(),
        tables_apart(tables),
        all_admitted(tables, relocations, n, members, exported) is Err,
    ensures
        ({
            let error = all_admitted(tables, relocations, n, members, exported)->Err_0;
            ||| error is Storage
            ||| error matches PersistenceError::InvalidRecoveryMapping { original_id, reason }
                && original_id == relocations[k].original_id && reason_told(
                tables,
                relocations,
                k,
                members,
                reason@,
            )
        }),
    decreases n,
{
    let m = (n - 1) as nat;
    if all_admitted(tables, relocations, m, members, exported) is Err {
        lemma_admission_refused(tables, relocations, m, members, exported)
    } else {
        lemma_reason_names();
        let k = n - 1;
        let before = all_admitted(tables, relocations, m, members, exported)->Ok_0;
        lemma_freed(tables, relocations, m, members, exported);
        let relocation = relocations[k];
        assert(requested_ids(relocations)[k] == relocation.original_id@);
        lemma_last_index_found(original_ids(before.originals), relocation.original_id@);
        let error = all_admitted(tables, relocations, n, members, exported)->Err_0;
        assert(admitted(before, relocations, k, members, exported) == Err::<
            TablesView,
            PersistenceError,
        >(error));
        match last_index(original_ids(before.originals), relocation.original_id@) {
            None => {
                assert forall|o: int|
                    0 <= o < tables.originals.len() && (#[trigger] tables.originals[o]).id
                        == relocation.original_id@ implies tables.originals[o].available by {
                    assert(before.originals.contains(tables.originals[o]));
                    let u = choose|u: int|
                        0 <= u < before.originals.len() && before.originals[u]
                            == tables.originals[o];
                    assert(original_ids(before.originals)[u] == relocation.original_id@);
                }
            },
            Some(o) => {
                assert(original_ids(before.originals)[o] == relocation.original_id@);
                assert(tables.originals.contains(before.originals[o]));
                let v = choose|v: int|
                    0 <= v < tables.originals.len() && tables.originals[v] == before.originals[o];
                assert(tables.originals[v].id == relocation.original_id@);
                assert forall|w: int|
                    0 <= w < tables.originals.len() && (#[trigger] tables.originals[w]).id
                        == relocation.original_id@ implies w == v by {
                    assert(original_ids(tables.originals)[w] == original_ids(tables.originals)[v]);
                }
                if relocation.location is Some {
                    let to = relocation.location->0@;
                    lemma_last_index_found(original_paths(before.originals), to);
                    if let Some(x) = last_index(original_paths(before.originals), to) {
                        assert(original_paths(before.originals)[x] == to);
                        assert(tables.originals.contains(before.originals[x]));
                        let w = choose|w: int|
                            0 <= w < tables.originals.len() && tables.originals[w]
                                == before.originals[x];
                        assert(tables.originals[w].relative_path == to);
                        let owner = before.originals[x].id;
                        lemma_last_index_found(photo_owners(before.photos), owner);
                        if let Some(p) = last_index(photo_owners(before.photos), owner) {
                            assert(photo_owners(before.photos)[p] == owner);
                            assert(tables.photos.contains(before.photos[p]));
                            let q = choose|q: int|
                                0 <= q < tables.photos.len() && tables.photos[q]
                                    == before.photos[p];
                            assert(tables.photos[q].original_id == tables.originals[w].id);
                        }
                    }
                }
            },
        }
        k
    }
}

proof fn lemma_binding_refused(
    tables: TablesView,
    relocations: Seq<RequestedRelocation>,
    n: nat,
    members: Seq<Seq<char>>,
    exported: Seq<Seq<char>>,
) -> (k: int)
    requires
        n <= relocations.len(),
        tables_apart(tables),
        all_admitted(tables, relocations, relocations.len(), members, exported) is Ok,
        all_bound(
            all_admitted(tables, relocations, relocations.len(), members, exported)->Ok_0,
            relocations,
            n,
        ) is Err,
    ensures
        ({
            let free = all_admitted(tables, relocations, relocations.len(), members, exported)->Ok_0;
            let error = all_bound(free, relocations, n)->Err_0;
            ||| error is Storage
            ||| error matches PersistenceError::InvalidRecoveryMapping { original_id, reason }
                && original_id == relocations[k].original_id && reason_told(
                tables,
                relocations,
                k,
                members,
                reason@,
            )
        }),
    decreases n,
{
    let free = all_admitted(tables, relocations, relocations.len(), members, exported)->Ok_0;
    let m = (n - 1) as nat;
    if all_bound(free, relocations, m) is Err {
        lemma_binding_refused(tables, relocations, m, members, exported)
    } else {
        lemma_reason_names();
        let k = n - 1;
        let id = relocations[k].original_id@;
        lemma_freed(tables, relocations, relocations.len(), members, exported);
        lemma_rebound(free, relocations, m);
        let before = all_bound(free, relocations, m)->Ok_0;
        assert(requested_ids(relocations)[k] == id);
        lemma_last_index_found(original_ids(before.originals), id);
        lemma_last_index_found(photo_owners(before.photos), id);
        if last_index(original_ids(before.originals), id) is None {
            assert forall|o: int|
                0 <= o < tables.originals.len() && (#[trigger] tables.originals[o]).id
                    == id implies tables.originals[o].available by {
                assert(free.originals.contains(tables.originals[o]));
                let u = choose|u: int|
                    0 <= u < free.originals.len() && free.originals[u] == tables.originals[o];
                assert(original_ids(before.originals)[u] == id);
            }
        }
        if last_index(photo_owners(before.photos), id) is None && photo_owners(
            tables.photos,
        ).contains(id) {
            let p = choose|p: int|
                0 <= p < tables.photos.len() && photo_owners(tables.photos)[p] == id;
            assert(tables.photos.contains(tables.photos[p]));
            lemma_admitted_photos(
                tables,
                relocations,
                relocations.len(),
                members,
                exported,
                tables.photos[p],
            );
            let q = choose|q: int|
                0 <= q < free.photos.len() && free.photos[q] == tables.photos[p];
            assert(photo_owners(before.photos)[q] == id);
        }
        k
    }
}

proof fn lemma_first_repeat(list: Seq<Seq<char>>)
    ensures
        first_repeat(list) matches Some(i) ==> 0 <= i < list.len() && exists|j: int|
            0 <= j < i && #[trigger] list[j] == list[i],
    decreases list.len(),
{
    if list.len() > 0 {
        let front = list.drop_last();
        lemma_first_repeat(front);
        if let Some(i) = first_repeat(front) {
            let j = choose|j: int| 0 <= j < i && #[trigger] front[j] == front[i];
            assert(list[j] == list[i]);
        } else if front.contains(list.last()) {
            let j = choose|j: int| 0 <= j < front.len() && front[j] == list.last();
            assert(list[j] == list[list.len() - 1]);
        }
    }
}

/// A relocation that is refused is named with its reason. An invalid Location is none at
/// all; what collides shares its file or its Location with an earlier relocation; a stale
/// one names no missing file with a Photo; a mismatched one was found as another kind; and
/// an occupied Location holds a file that stays, because nobody confirmed that it is given
/// up or because something was decided about its Photo.
pub proof fn law_refused_relocations_name_their_reason(
    before: ScanTables,
    relocations: Vec<RequestedRelocation>,
    members: Vec<String>,
    exported: Vec<String>,
    original_id: String,
    reason: &'static str,
) -> (k: int)
    requires
        tables_apart(before@),
        call_ensures(
            apply_manual_relocations,
            (&before, &relocations, &members, &exported),
            Err(PersistenceError::InvalidRecoveryMapping { original_id, reason }),
        ),
    ensures
        0 <= k < relocations.len(),
        relocations@[k].original_id == original_id,
        reason@ == "invalid-location"@ || reason@ == "colliding"@ || reason@ == "stale"@ || reason@
            == "kind-mismatch"@ || reason@ == "occupied"@,
        reason@ == "invalid-location"@ ==> relocations@[k].location is None,
        reason@ == "colliding"@ ==> exists|j: int|
            0 <= j < k && ((#[trigger] relocations@[j]).original_id@ == original_id@ || (
            relocations@[j].location is Some && relocations@[k].location is Some
                && relocations@[j].location->0@ == relocations@[k].location->0@)),
        reason@ == "kind-mismatch"@ ==> exists|o: int|
            0 <= o < before.originals.len() && (#[trigger] before.originals@[o]).id@
                == original_id@ && !before.originals@[o].available && relocations@[k].named_kind
                != Some(before.originals@[o].kind),
        reason@ == "stale"@ ==> (forall|o: int|
            0 <= o < before.originals.len() && (#[trigger] before.originals@[o]).id@
                == original_id@ ==> before.originals@[o].available) || (forall|p: int|
            0 <= p < before.photos.len() ==> (#[trigger] before.photos@[p]).original_id@
                != original_id@),
        reason@ == "occupied"@ ==> exists|w: int|
            0 <= w < before.originals.len() && relocations@[k].location is Some && (
            #[trigger] before.originals@[w]).relative_path@ == relocations@[k].location->0@
                && before.originals@[w].id@ != original_id@ && (
            !relocations@[k].retire_destination || exists|p: int|
                0 <= p < before.photos.len() && (#[trigger] before.photos@[p]).original_id@
                    == before.originals@[w].id@ && (before.photos@[p].rating != 0
                    || before.photos@[p].selection_state != SelectionState::Undecided
                    || before.photos@[p].has_saved_edits || texts(members@).contains(
                    before.photos@[p].id@,
                ))),
{
    lemma_reason_names();
    let tables = before@;
    let n = relocations@.len();
    lemma_first_repeat(requested_ids(relocations@));
    let k = if let Some(i) = first_repeat(requested_ids(relocations@)) {
        let j = choose|j: int|
            0 <= j < i && #[trigger] requested_ids(relocations@)[j] == requested_ids(
                relocations@,
            )[i];
        assert(relocations@[j].original_id@ == relocations@[i].original_id@);
        i
    } else if all_admitted(tables, relocations@, n, texts(members@), texts(exported@)) is Err {
        lemma_admission_refused(tables, relocations@, n, texts(members@), texts(exported@))
    } else {
        lemma_binding_refused(tables, relocations@, n, texts(members@), texts(exported@))
    };
    assert(reason_told(tables, relocations@, k, texts(members@), reason@));
    if reason@ == "kind-mismatch"@ {
        let o = choose|o: int|
            0 <= o < tables.originals.len() && (#[trigger] tables.originals[o]).id
                == relocations@[k].original_id@ && !tables.originals[o].available
                && relocations@[k].named_kind != Some(tables.originals[o].kind);
        assert(tables.originals[o] == before.originals@[o]@);
        assert(before.originals@[o].id@ == original_id@);
    }
    if reason@ == "stale"@ {
        assert forall|o: int| 0 <= o < before.originals.len() implies tables.originals[o] == (
        #[trigger] before.originals@[o])@ by {}
        assert forall|p: int| 0 <= p < before.photos.len() implies photo_owners(tables.photos)[p]
            == (#[trigger] before.photos@[p]).original_id@ by {}
    }
    if reason@ == "occupied"@ {
        let w = choose|w: int|
            0 <= w < tables.originals.len() && (#[trigger] tables.originals[w]).relative_path
                == relocations@[k].location->0@ && relocations@[k].location is Some
                && !requested_ids(relocations@).contains(tables.originals[w].id) && (
            relocations@[k].retire_destination ==> exists|p: int|
                0 <= p < tables.photos.len() && (#[trigger] tables.photos[p]).original_id
                    == tables.originals[w].id && (tables.photos[p].rating != 0
                    || tables.photos[p].selection_state != SelectionState::Undecided
                    || tables.photos[p].has_saved_edits || texts(members@).contains(
                    tables.photos[p].id,
                )));
        assert(tables.originals[w] == before.originals@[w]@);
        assert(requested_ids(relocations@)[k] == original_id@);
        if relocations@[k].retire_destination {
            let p = choose|p: int|
                0 <= p < tables.photos.len() && (#[trigger] tables.photos[p]).original_id
                    == tables.originals[w].id && (tables.photos[p].rating != 0
                    || tables.photos[p].selection_state != SelectionState::Undecided
                    || tables.photos[p].has_saved_edits || texts(members@).contains(
                    tables.photos[p].id,
                ));
            assert(tables.photos[p] == before.photos@[p]@);
            assert(before.photos@[p].original_id@ == before.originals@[w].id@);
        }
        assert(before.originals@[w].relative_path@ == relocations@[k].location->0@);
    }
    k
}

} // verus!
