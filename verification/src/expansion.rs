//! The expansion of a library: its root moves up to a directory above, and every
//! Location gets the way down as a prefix.
use crate::codec::{CaptureMetadataState, OriginalKind, PreviewState};
use crate::error::PersistenceError;
use crate::numeral::same_name;
use crate::path::{components, lies_under};
use crate::scan_state::{
    clone_original, clone_photo, new_pending_capture, original_ids, originals_view, pending_capture,
    photo_ids, photos_view, OriginalRecord, OriginalView, PhotoRecord, PhotoView,
};
use crate::text::{
    contains_text, is_text, last_index, lemma_last_index, lemma_last_index_found, lemma_texts_push,
    opt_text, same_text, texts,
};
use vstd::prelude::*;
use vstd::string::*;

verus! {

/// What [`std::path::Path::strip_prefix`] leaves of a path, none if the base does
/// not begin it.
pub uninterp spec fn path_below(path: Seq<char>, base: Seq<char>) -> Option<Seq<char>>;

/// Calls [`std::path::Path::strip_prefix`] on two texts. Claimed of it: the
/// result depends on the texts alone; there is one exactly when the parts of the
/// base begin those of the path, and it has the others.
#[verifier::external_body]
fn strip_path_prefix(path: &String, base: &String) -> (rest: Option<String>)
    ensures
        opt_text(rest) == path_below(path@, base@),
        rest is Some <==> lies_under(base@, path@),
        rest is Some ==> components(rest->0@) == components(path@).skip(
            components(base@).len() as int,
        ),
{
    let rest = std::path::Path::new(path.as_str()).strip_prefix(base.as_str()).ok()?;
    rest.to_str().map(|text| text.to_owned())
}

/// The way from a proposed root down to a stored one: a text that is yet to be read
/// as a Location, and none where it is empty.
pub open spec fn way_down(proposed: Seq<char>, stored: Seq<char>) -> Option<Seq<char>> {
    match path_below(stored, proposed) {
        Some(rest) if rest.len() > 0 => Some(rest),
        _ => None,
    }
}

/// The way from a proposed root down to the stored one, as a text that is yet to
/// be read as a Location. The stored root itself is no expansion.
pub fn expansion_prefix(proposed: &String, stored: &String) -> (prefix: Result<
    String,
    PersistenceError,
>)
    ensures
        match way_down(proposed@, stored@) {
            Some(rest) => prefix is Ok && prefix->Ok_0@ == rest,
            None => prefix == Err::<String, PersistenceError>(PersistenceError::InvalidExpansion),
        },
        prefix is Ok ==> lies_under(proposed@, stored@) && components(prefix->Ok_0@) == components(
            stored@,
        ).skip(components(proposed@).len() as int),
        lies_under(proposed@, stored@) && components(stored@).len() > components(proposed@).len()
            ==> prefix is Ok,
{
    match strip_path_prefix(stored, proposed) {
        Some(rest) => {
            if rest.as_str().unicode_len() == 0 {
                proof {
                    lemma_empty_path(rest@);
                }
                return Err(PersistenceError::InvalidExpansion);
            }
            Ok(rest)
        },
        None => Err(PersistenceError::InvalidExpansion),
    }
}

proof fn lemma_empty_path(path: Seq<char>)
    requires
        path.len() == 0,
    ensures
        components(path).len() == 0,
{
    reveal(Seq::filter);
    reveal_with_fuel(Seq::filter, 3);
}

/// The root that a database is bound to, which an expansion needs.
pub fn required_root_binding(stored: Option<String>) -> (root: Result<String, PersistenceError>)
    ensures
        root == (match stored {
            Some(text) => Ok::<String, PersistenceError>(text),
            None => Err::<String, PersistenceError>(PersistenceError::InvalidExpansion),
        }),
{
    match stored {
        Some(text) => Ok(text),
        None => Err(PersistenceError::InvalidExpansion),
    }
}

/// Accepts a database for an expansion: its schema is exactly that of version
/// eight, or of version seven.
pub fn check_expandable(canonical_eight: bool, canonical_seven: bool) -> (result: Result<
    (),
    PersistenceError,
>)
    ensures
        result == (if canonical_eight || canonical_seven {
            Ok::<(), PersistenceError>(())
        } else {
            Err::<(), PersistenceError>(PersistenceError::UnsupportedSchema)
        }),
{
    if canonical_eight || canonical_seven {
        Ok(())
    } else {
        Err(PersistenceError::UnsupportedSchema)
    }
}

/// Accepts the proof that the stored root is the directory below the proposed
/// one. `before` and `after` say whether the two were the same directory before
/// and after the proposed root was scanned, and are none where that could not be
/// told; `scanned` says whether the scan succeeded.
pub fn check_same_directory(before: Option<bool>, scanned: bool, after: Option<bool>) -> (result:
    Result<(), PersistenceError>)
    ensures
        result == (if before == Some(true) && scanned && after == Some(true) {
            Ok::<(), PersistenceError>(())
        } else {
            Err::<(), PersistenceError>(PersistenceError::InvalidExpansion)
        }),
{
    let same_before: bool = match before {
        Some(same) => same,
        None => false,
    };
    let same_after: bool = match after {
        Some(same) => same,
        None => false,
    };
    if same_before && scanned && same_after {
        Ok(())
    } else {
        Err(PersistenceError::InvalidExpansion)
    }
}

/// Accepts a database that keeps a rollback journal: the name of its mode is
/// "delete", whatever the case of its letters.
pub fn check_journal(mode: &String) -> (result: Result<(), PersistenceError>)
    ensures
        result == (if crate::numeral::folded(mode@) == crate::numeral::folded("delete"@) {
            Ok::<(), PersistenceError>(())
        } else {
            Err::<(), PersistenceError>(PersistenceError::UnsupportedSchema)
        }),
{
    if same_name(mode, &"delete".to_owned()) {
        Ok(())
    } else {
        Err(PersistenceError::UnsupportedSchema)
    }
}

/// Accepts a database that is still bound to the root that was read first.
pub fn check_root_unchanged(current: Option<String>, stored: &String) -> (result: Result<
    (),
    PersistenceError,
>)
    ensures
        result == (match current {
            None => Err::<(), PersistenceError>(PersistenceError::InvalidExpansion),
            Some(root) => if root@ == stored@ {
                Ok::<(), PersistenceError>(())
            } else {
                Err::<(), PersistenceError>(PersistenceError::RootMismatch)
            },
        }),
{
    match current {
        None => Err(PersistenceError::InvalidExpansion),
        Some(root) => if same_text(&root, stored) {
            Ok(())
        } else {
            Err(PersistenceError::RootMismatch)
        },
    }
}

/// What an expansion reads of an Original File: its columns, its Location, none
/// if the stored text is no Location, the kind that its name tells, and whether
/// its Location with the prefix before it is a Location too.
#[derive(Clone, Debug, PartialEq, Eq)]
pub struct ExpansionOriginal {
    pub id: String,
    pub relative_path: String,
    pub kind: String,
    pub location: Option<String>,
    pub named_kind: Option<OriginalKind>,
    pub prefixed_is_location: bool,
}

/// What an expansion reads of a Photo.
#[derive(Clone, Debug, PartialEq, Eq)]
pub struct ExpansionPhoto {
    pub id: String,
    pub original_id: String,
}

/// A Location with the prefix before it.
pub open spec fn prefixed(prefix: Seq<char>, location: Seq<char>) -> Seq<char> {
    prefix + "/"@ + location
}

/// Whether an Original File can be expanded.
pub open spec fn expandable(row: ExpansionOriginal) -> bool {
    &&& row.location is Some
    &&& row.named_kind is Some
    &&& row.kind@ == "raw"@ || row.kind@ == "jpeg"@
    &&& (row.named_kind->0 == OriginalKind::Raw) == (row.kind@ == "raw"@)
    &&& row.prefixed_is_location
}

/// The Locations of Original Files with the prefix before them.
pub open spec fn prefixed_paths(originals: Seq<ExpansionOriginal>, prefix: Seq<char>) -> Seq<
    Seq<char>,
> {
    Seq::new(originals.len(), |i: int| prefixed(prefix, originals[i].location->0@))
}

/// The identities of Original Files.
pub open spec fn expansion_ids(originals: Seq<ExpansionOriginal>) -> Seq<Seq<char>> {
    Seq::new(originals.len(), |i: int| originals[i].id@)
}

/// Whether a library can be expanded: every Original File can, no two end at one
/// Location, and every Photo has an Original File.
pub open spec fn plannable(
    originals: Seq<ExpansionOriginal>,
    photos: Seq<ExpansionPhoto>,
    prefix: Seq<char>,
) -> bool {
    &&& forall|i: int| 0 <= i < originals.len() ==> expandable(#[trigger] originals[i])
    &&& prefixed_paths(originals, prefix).no_duplicates()
    &&& forall|i: int|
        0 <= i < photos.len() ==> expansion_ids(originals).contains(
            (#[trigger] photos[i]).original_id@,
        )
}

/// A change of a Location.
#[derive(Clone, Debug, PartialEq, Eq)]
pub struct LocationChange {
    pub id: String,
    pub old_path: String,
    pub new_path: String,
}

/// The sort path that a Photo gets.
#[derive(Clone, Debug, PartialEq, Eq)]
pub struct SortPathChange {
    pub id: String,
    pub sort_path: String,
}

/// What an expansion changes.
#[derive(Clone, Debug, PartialEq, Eq)]
pub struct ExpansionPlan {
    pub originals: Vec<LocationChange>,
    pub photo_sort_paths: Vec<SortPathChange>,
}

/// Whether a plan says for every Original File its Location with the prefix, and
/// for every Photo the new Location of its Original File.
pub open spec fn plans(
    plan: ExpansionPlan,
    originals: Seq<ExpansionOriginal>,
    photos: Seq<ExpansionPhoto>,
    prefix: Seq<char>,
) -> bool {
    &&& plan.originals@.len() == originals.len()
    &&& forall|i: int|
        0 <= i < originals.len() ==> (#[trigger] plan.originals@[i]).id@ == originals[i].id@
            && plan.originals@[i].old_path@ == originals[i].relative_path@
            && plan.originals@[i].new_path@ == prefixed(prefix, originals[i].location->0@)
    &&& plan.photo_sort_paths@.len() == photos.len()
    &&& forall|i: int|
        0 <= i < photos.len() ==> (#[trigger] plan.photo_sort_paths@[i]).id@ == photos[i].id@
            && plan.photo_sort_paths@[i].sort_path@ == prefixed(
            prefix,
            originals[last_index(
                expansion_ids(originals),
                photos[i].original_id@,
            )->0].location->0@,
        )
}

fn prefix_location(prefix: &String, location: &String) -> (text: String)
    ensures
        text@ == prefixed(prefix@, location@),
{
    let mut text: String = prefix.clone();
    text.append("/");
    text.append(location.as_str());
    text
}

fn is_expandable(row: &ExpansionOriginal) -> (answer: bool)
    ensures
        answer == expandable(*row),
{
    let raw: bool = is_text(&row.kind, "raw");
    let jpeg: bool = is_text(&row.kind, "jpeg");
    let named: bool = match row.named_kind {
        Some(kind) => (kind == OriginalKind::Raw) == raw,
        None => false,
    };
    row.location.is_some() && named && (raw || jpeg) && row.prefixed_is_location
}

fn index_of_expansion(originals: &Vec<ExpansionOriginal>, id: &String) -> (index: Option<usize>)
    ensures
        match index {
            Some(i) => last_index(expansion_ids(originals@), id@) == Some(i as int) && i
                < originals.len(),
            None => last_index(expansion_ids(originals@), id@) is None,
        },
{
    let ghost ids = expansion_ids(originals@);
    let mut i: usize = originals.len();
    while i > 0
        invariant
            i <= originals.len(),
            ids == expansion_ids(originals@),
            forall|j: int| i <= j < originals.len() ==> ids[j] != id@,
        decreases i,
    {
        i = i - 1;
        assert(ids[i as int] == originals@[i as int].id@);
        if same_text(&originals[i].id, id) {
            proof {
                crate::text::lemma_last_index(ids, id@, i as int);
            }
            return Some(i);
        }
    }
    proof {
        lemma_last_index_found(ids, id@);
    }
    None
}

/// Plans the expansion of a library, or refuses it as a whole.
pub fn expansion_plan(
    originals: &Vec<ExpansionOriginal>,
    photos: &Vec<ExpansionPhoto>,
    prefix: &String,
) -> (result: Result<ExpansionPlan, PersistenceError>)
    ensures
        if plannable(originals@, photos@, prefix@) {
            result is Ok && plans(result->Ok_0, originals@, photos@, prefix@)
        } else {
            result == Err::<ExpansionPlan, PersistenceError>(PersistenceError::InvalidExpansion)
        },
{
    let ghost all = prefixed_paths(originals@, prefix@);
    let mut targets: Vec<String> = Vec::new();
    let mut changes: Vec<LocationChange> = Vec::new();
    let mut i: usize = 0;
    while i < originals.len()
        invariant
            i <= originals.len(),
            all == prefixed_paths(originals@, prefix@),
            texts(targets@) == all.take(i as int),
            all.take(i as int).no_duplicates(),
            forall|j: int| 0 <= j < i ==> expandable(#[trigger] originals@[j]),
            changes.len() == i,
            forall|j: int|
                0 <= j < i ==> (#[trigger] changes@[j]).id@ == originals@[j].id@
                    && changes@[j].old_path@ == originals@[j].relative_path@
                    && changes@[j].new_path@ == prefixed(prefix@, originals@[j].location->0@),
        decreases originals.len() - i,
    {
        if !is_expandable(&originals[i]) {
            assert(!expandable(originals@[i as int]));
            return Err(PersistenceError::InvalidExpansion);
        }
        let new_path: String = match &originals[i].location {
            Some(location) => prefix_location(prefix, location),
            None => String::new(),
        };
        assert(all[i as int] == new_path@);
        if contains_text(&targets, &new_path) {
            proof {
                let k = choose|k: int| 0 <= k < i && all.take(i as int)[k] == new_path@;
                assert(all[k] == all[i as int]);
                assert(!all.no_duplicates());
            }
            return Err(PersistenceError::InvalidExpansion);
        }
        proof {
            lemma_texts_push(targets@, new_path);
            assert(all.take(i + 1) =~= all.take(i as int).push(new_path@));
            let longer = all.take(i + 1);
            let shorter = all.take(i as int);
            assert forall|a: int, b: int|
                0 <= a < longer.len() && 0 <= b < longer.len() && a != b implies longer[a]
                != longer[b] by {
                if a < i && b < i {
                    assert(shorter[a] != shorter[b]);
                } else if a < i {
                    assert(shorter.contains(shorter[a]));
                } else {
                    assert(shorter.contains(shorter[b]));
                }
            }
        }
        targets.push(new_path.clone());
        changes.push(
            LocationChange {
                id: originals[i].id.clone(),
                old_path: originals[i].relative_path.clone(),
                new_path,
            },
        );
        i = i + 1;
    }
    assert(all.take(all.len() as int) =~= all);
    let mut sort_paths: Vec<SortPathChange> = Vec::new();
    let mut k: usize = 0;
    while k < photos.len()
        invariant
            k <= photos.len(),
            all == prefixed_paths(originals@, prefix@),
            all.no_duplicates(),
            changes.len() == originals.len(),
            forall|j: int| 0 <= j < originals.len() ==> expandable(#[trigger] originals@[j]),
            forall|j: int|
                0 <= j < originals.len() ==> (#[trigger] changes@[j]).id@ == originals@[j].id@
                    && changes@[j].old_path@ == originals@[j].relative_path@
                    && changes@[j].new_path@ == prefixed(prefix@, originals@[j].location->0@),
            forall|j: int|
                0 <= j < k ==> expansion_ids(originals@).contains(
                    (#[trigger] photos@[j]).original_id@,
                ),
            sort_paths.len() == k,
            forall|j: int|
                0 <= j < k ==> (#[trigger] sort_paths@[j]).id@ == photos@[j].id@
                    && sort_paths@[j].sort_path@ == prefixed(
                    prefix@,
                    originals@[last_index(
                        expansion_ids(originals@),
                        photos@[j].original_id@,
                    )->0].location->0@,
                ),
        decreases photos.len() - k,
    {
        proof {
            lemma_last_index_found(expansion_ids(originals@), photos@[k as int].original_id@);
        }
        match index_of_expansion(originals, &photos[k].original_id) {
            Some(o) => {
                assert(changes@[o as int].new_path@ == prefixed(
                    prefix@,
                    originals@[o as int].location->0@,
                ));
                sort_paths.push(
                    SortPathChange {
                        id: photos[k].id.clone(),
                        sort_path: changes[o].new_path.clone(),
                    },
                );
            },
            None => {
                assert(!expansion_ids(originals@).contains(photos@[k as int].original_id@));
                return Err(PersistenceError::InvalidExpansion);
            },
        }
        k = k + 1;
    }
    Ok(ExpansionPlan { originals: changes, photo_sort_paths: sort_paths })
}

/// Two Locations that differ still differ with a prefix before them, and each
/// one keeps its own text behind it.
pub proof fn law_prefixes_keep_locations_apart(
    prefix: Seq<char>,
    left: Seq<char>,
    right: Seq<char>,
)
    ensures
        prefixed(prefix, left) == prefixed(prefix, right) ==> left == right,
        prefixed(prefix, left).skip((prefix.len() + 1) as int) == left,
{
    reveal_strlit("/");
    assert(prefixed(prefix, left).skip((prefix.len() + 1) as int) =~= left);
    assert(prefixed(prefix, right).skip((prefix.len() + 1) as int) =~= right);
}

/// The Original Files with their new Locations: the capture facts are to be read
/// again.
pub open spec fn relocated_original(row: OriginalView, new_path: Seq<char>) -> OriginalView {
    OriginalView { relative_path: new_path, capture: pending_capture(), ..row }
}

/// A Photo with its new sort path: the Preview is to be made again.
pub open spec fn resorted_photo(row: PhotoView, sort_path: Seq<char>) -> PhotoView {
    PhotoView {
        sort_path,
        preview_state: PreviewState::InspectionPending,
        preview_source_revision: None,
        preview_width: None,
        preview_height: None,
        cache_revision: None,
        ..row
    }
}

/// Whether a Location is that of another Original File than the one at an index.
pub open spec fn held_by_another(rows: Seq<OriginalView>, k: int, path: Seq<char>) -> bool {
    exists|j: int| 0 <= j < rows.len() && j != k && (#[trigger] rows[j]).relative_path == path
}

/// The Original Files once the changes of a plan are made, one after the other.
/// Each names one that is stored under its identity at its old Location, or the
/// plan does not fit; no two are ever stored at one Location.
pub open spec fn originals_expanded(
    rows: Seq<OriginalView>,
    changes: Seq<LocationChange>,
) -> Result<Seq<OriginalView>, PersistenceError>
    decreases changes.len(),
{
    if changes.len() == 0 {
        Ok(rows)
    } else {
        match originals_expanded(rows, changes.drop_last()) {
            Err(error) => Err(error),
            Ok(before) => {
                let change = changes.last();
                match last_index(original_ids(before), change.id@) {
                    Some(k) => if before[k].relative_path != change.old_path@ {
                        Err(PersistenceError::InvalidExpansion)
                    } else if held_by_another(before, k, change.new_path@) {
                        Err(PersistenceError::Storage)
                    } else {
                        Ok(before.update(k, relocated_original(before[k], change.new_path@)))
                    },
                    None => Err(PersistenceError::InvalidExpansion),
                }
            },
        }
    }
}

/// The Photos once the first changes of a plan are made.
pub open spec fn photos_expanded(
    rows: Seq<PhotoView>,
    changes: Seq<SortPathChange>,
) -> Option<Seq<PhotoView>>
    decreases changes.len(),
{
    if changes.len() == 0 {
        Some(rows)
    } else {
        match photos_expanded(rows, changes.drop_last()) {
            None => None,
            Some(before) => {
                let change = changes.last();
                match last_index(photo_ids(before), change.id@) {
                    Some(k) => Some(
                        before.update(k, resorted_photo(before[k], change.sort_path@)),
                    ),
                    None => None,
                }
            },
        }
    }
}

proof fn lemma_originals_expansion_stopped(
    rows: Seq<OriginalView>,
    changes: Seq<LocationChange>,
    n: int,
)
    requires
        0 <= n <= changes.len(),
        originals_expanded(rows, changes.take(n)) is Err,
    ensures
        originals_expanded(rows, changes) == originals_expanded(rows, changes.take(n)),
    decreases changes.len(),
{
    if n == changes.len() {
        assert(changes.take(n) =~= changes);
    } else {
        assert(changes.drop_last().take(n) =~= changes.take(n));
        lemma_originals_expansion_stopped(rows, changes.drop_last(), n);
    }
}

proof fn lemma_photos_expansion_stopped(
    rows: Seq<PhotoView>,
    changes: Seq<SortPathChange>,
    n: int,
)
    requires
        0 <= n <= changes.len(),
        photos_expanded(rows, changes.take(n)) is None,
    ensures
        photos_expanded(rows, changes) is None,
    decreases changes.len(),
{
    if n == changes.len() {
        assert(changes.take(n) =~= changes);
    } else {
        assert(changes.drop_last().take(n) =~= changes.take(n));
        lemma_photos_expansion_stopped(rows, changes.drop_last(), n);
    }
}

fn is_held_by_another(rows: &Vec<OriginalRecord>, k: usize, path: &String) -> (answer: bool)
    ensures
        answer == held_by_another(originals_view(rows@), k as int, path@),
{
    let ghost views = originals_view(rows@);
    let mut j: usize = 0;
    while j < rows.len()
        invariant
            j <= rows.len(),
            views == originals_view(rows@),
            forall|i: int| 0 <= i < j && i != k ==> (#[trigger] views[i]).relative_path != path@,
        decreases rows.len() - j,
    {
        assert(views[j as int].relative_path == rows@[j as int].relative_path@);
        if j != k && same_text(&rows[j].relative_path, path) {
            return true;
        }
        j = j + 1;
    }
    false
}

fn expand_originals(rows: &mut Vec<OriginalRecord>, changes: &Vec<LocationChange>) -> (result:
    Result<(), PersistenceError>)
    ensures
        match originals_expanded(originals_view(old(rows)@), changes@) {
            Ok(after) => result is Ok && originals_view(final(rows)@) == after,
            Err(error) => result == Err::<(), PersistenceError>(error),
        },
{
    let ghost start = originals_view(rows@);
    let mut i: usize = 0;
    assert(changes@.take(0) =~= Seq::<LocationChange>::empty());
    while i < changes.len()
        invariant
            i <= changes.len(),
            start == originals_view(old(rows)@),
            originals_expanded(start, changes@.take(i as int)) == Ok::<
                Seq<OriginalView>,
                PersistenceError,
            >(originals_view(rows@)),
        decreases changes.len() - i,
    {
        let ghost before = originals_view(rows@);
        proof {
            assert(changes@.take(i + 1).drop_last() =~= changes@.take(i as int));
            assert(changes@.take(i + 1).last() == changes@[i as int]);
            if originals_expanded(start, changes@.take(i + 1)) is Err {
                lemma_originals_expansion_stopped(start, changes@, i + 1);
            }
        }
        match crate::scan_state::index_of_original(rows, &changes[i].id) {
            Some(k) => {
                if !same_text(&rows[k].relative_path, &changes[i].old_path) {
                    return Err(PersistenceError::InvalidExpansion);
                }
                if is_held_by_another(rows, k, &changes[i].new_path) {
                    return Err(PersistenceError::Storage);
                }
                let mut row: OriginalRecord = clone_original(&rows[k]);
                row.relative_path = changes[i].new_path.clone();
                row.capture = new_pending_capture();
                proof {
                    assert(row@ == relocated_original(
                        before[k as int],
                        changes@[i as int].new_path@,
                    ));
                    assert(originals_view(rows@.update(k as int, row)) =~= before.update(
                        k as int,
                        row@,
                    ));
                }
                rows[k] = row;
            },
            None => {
                return Err(PersistenceError::InvalidExpansion);
            },
        }
        i = i + 1;
    }
    assert(changes@.take(changes@.len() as int) =~= changes@);
    Ok(())
}

fn expand_photos(rows: &mut Vec<PhotoRecord>, changes: &Vec<SortPathChange>) -> (done: bool)
    ensures
        match photos_expanded(photos_view(old(rows)@), changes@) {
            Some(after) => done && photos_view(final(rows)@) == after,
            None => !done,
        },
{
    let ghost start = photos_view(rows@);
    let mut i: usize = 0;
    assert(changes@.take(0) =~= Seq::<SortPathChange>::empty());
    while i < changes.len()
        invariant
            i <= changes.len(),
            start == photos_view(old(rows)@),
            photos_expanded(start, changes@.take(i as int)) == Some(photos_view(rows@)),
        decreases changes.len() - i,
    {
        let ghost before = photos_view(rows@);
        proof {
            assert(changes@.take(i + 1).drop_last() =~= changes@.take(i as int));
            assert(changes@.take(i + 1).last() == changes@[i as int]);
            if photos_expanded(start, changes@.take(i + 1)) is None {
                lemma_photos_expansion_stopped(start, changes@, i + 1);
            }
        }
        match crate::scan_state::index_of_photo_row(rows, &changes[i].id) {
            Some(k) => {
                let mut row: PhotoRecord = clone_photo(&rows[k]);
                row.sort_path = changes[i].sort_path.clone();
                row.preview_state = PreviewState::InspectionPending;
                row.preview_source_revision = None;
                row.preview_width = None;
                row.preview_height = None;
                row.cache_revision = None;
                proof {
                    assert(row@ == resorted_photo(
                        before[k as int],
                        changes@[i as int].sort_path@,
                    ));
                    assert(photos_view(rows@.update(k as int, row)) =~= before.update(
                        k as int,
                        row@,
                    ));
                }
                rows[k] = row;
            },
            None => {
                return false;
            },
        }
        i = i + 1;
    }
    assert(changes@.take(changes@.len() as int) =~= changes@);
    true
}

/// The Original Files and Photos once a plan is carried out, or why nothing is
/// changed.
pub fn expand_library(
    originals: Vec<OriginalRecord>,
    photos: Vec<PhotoRecord>,
    plan: &ExpansionPlan,
) -> (result: Result<(Vec<OriginalRecord>, Vec<PhotoRecord>), PersistenceError>)
    ensures
        match originals_expanded(originals_view(originals@), plan.originals@) {
            Err(error) => result == Err::<
                (Vec<OriginalRecord>, Vec<PhotoRecord>),
                PersistenceError,
            >(error),
            Ok(a) => match photos_expanded(photos_view(photos@), plan.photo_sort_paths@) {
                None => result == Err::<(Vec<OriginalRecord>, Vec<PhotoRecord>), PersistenceError>(
                    PersistenceError::InvalidExpansion,
                ),
                Some(b) => result is Ok && originals_view(result->Ok_0.0@) == a && photos_view(
                    result->Ok_0.1@,
                ) == b,
            },
        },
{
    let mut originals = originals;
    let mut photos = photos;
    match expand_originals(&mut originals, &plan.originals) {
        Err(error) => {
            return Err(error);
        },
        Ok(_) => {},
    }
    if !expand_photos(&mut photos, &plan.photo_sort_paths) {
        return Err(PersistenceError::InvalidExpansion);
    }
    Ok((originals, photos))
}

/// What an expansion preserves of an Original File.
pub open spec fn preserved_original(left: OriginalView, right: OriginalView) -> bool {
    left.id == right.id && left.kind == right.kind && left.size == right.size && left.mtime_ms
        == right.mtime_ms && left.available == right.available && left.error_category
        == right.error_category && left.error_message == right.error_message
}

/// What an expansion preserves of a Photo.
pub open spec fn preserved_photo(left: PhotoView, right: PhotoView) -> bool {
    left.id == right.id && left.original_id == right.original_id && left.available
        == right.available && left.selection_state == right.selection_state && left.rating
        == right.rating && left.has_saved_edits == right.has_saved_edits && left.removed
        == right.removed
}

/// An expansion changes Locations, sort paths, capture facts and Previews, and
/// nothing else: identities, kinds, observed facts and decisions stay.
pub proof fn law_expansion_preserves_originals(
    rows: Seq<OriginalView>,
    changes: Seq<LocationChange>,
)
    requires
        originals_expanded(rows, changes) is Ok,
    ensures
        originals_expanded(rows, changes)->Ok_0.len() == rows.len(),
        forall|i: int|
            0 <= i < rows.len() ==> preserved_original(
                #[trigger] originals_expanded(rows, changes)->Ok_0[i],
                rows[i],
            ),
    decreases changes.len(),
{
    if changes.len() > 0 {
        law_expansion_preserves_originals(rows, changes.drop_last());
        let before = originals_expanded(rows, changes.drop_last())->Ok_0;
        let after = originals_expanded(rows, changes)->Ok_0;
        lemma_last_index_found(original_ids(before), changes.last().id@);
        assert forall|i: int| 0 <= i < rows.len() implies preserved_original(
            #[trigger] after[i],
            rows[i],
        ) by {
            assert(preserved_original(before[i], rows[i]));
        }
    }
}

/// An expansion touches no decision about a Photo.
pub proof fn law_expansion_preserves_photos(rows: Seq<PhotoView>, changes: Seq<SortPathChange>)
    requires
        photos_expanded(rows, changes) is Some,
    ensures
        photos_expanded(rows, changes)->0.len() == rows.len(),
        forall|i: int|
            0 <= i < rows.len() ==> preserved_photo(
                #[trigger] photos_expanded(rows, changes)->0[i],
                rows[i],
            ),
    decreases changes.len(),
{
    if changes.len() > 0 {
        law_expansion_preserves_photos(rows, changes.drop_last());
        let before = photos_expanded(rows, changes.drop_last())->0;
        let after = photos_expanded(rows, changes)->0;
        lemma_last_index_found(photo_ids(before), changes.last().id@);
        assert forall|i: int| 0 <= i < rows.len() implies preserved_photo(
            #[trigger] after[i],
            rows[i],
        ) by {
            assert(preserved_photo(before[i], rows[i]));
        }
    }
}

proof fn lemma_expanded_untouched(rows: Seq<OriginalView>, changes: Seq<LocationChange>, i: int)
    requires
        originals_expanded(rows, changes) is Ok,
        0 <= i < rows.len(),
        forall|c: int| 0 <= c < changes.len() ==> (#[trigger] changes[c]).id@ != rows[i].id,
    ensures
        originals_expanded(rows, changes)->Ok_0.len() == rows.len(),
        originals_expanded(rows, changes)->Ok_0[i] == rows[i],
    decreases changes.len(),
{
    if changes.len() > 0 {
        let front = changes.drop_last();
        assert forall|c: int| 0 <= c < front.len() implies (#[trigger] front[c]).id@
            != rows[i].id by {
            assert(front[c] == changes[c]);
        }
        lemma_expanded_untouched(rows, front, i);
        let before = originals_expanded(rows, front)->Ok_0;
        lemma_last_index_found(original_ids(before), changes.last().id@);
        assert(original_ids(before)[i] == rows[i].id);
        assert(changes.last() == changes[changes.len() - 1]);
    }
}

proof fn lemma_expanded_original(rows: Seq<OriginalView>, changes: Seq<LocationChange>, c: int, i: int)
    requires
        originals_expanded(rows, changes) is Ok,
        original_ids(rows).no_duplicates(),
        0 <= c < changes.len(),
        0 <= i < rows.len(),
        changes[c].id@ == rows[i].id,
        forall|a: int, b: int|
            0 <= a < b < changes.len() ==> (#[trigger] changes[a]).id@ != (
            #[trigger] changes[b]).id@,
    ensures
        rows[i].relative_path == changes[c].old_path@,
        originals_expanded(rows, changes)->Ok_0.len() == rows.len(),
        originals_expanded(rows, changes)->Ok_0[i] == relocated_original(
            rows[i],
            changes[c].new_path@,
        ),
    decreases changes.len(),
{
    let front = changes.drop_last();
    let before = originals_expanded(rows, front)->Ok_0;
    let last = changes.last();
    law_expansion_preserves_originals(rows, front);
    lemma_last_index_found(original_ids(before), last.id@);
    assert(original_ids(rows)[i] == rows[i].id);
    assert(original_ids(before)[i] == rows[i].id) by {
        assert(preserved_original(before[i], rows[i]));
    }
    let k = last_index(original_ids(before), last.id@)->0;
    assert(original_ids(before)[k] == original_ids(rows)[k]) by {
        assert(preserved_original(before[k], rows[k]));
    }
    if c == changes.len() - 1 {
        assert forall|a: int| 0 <= a < front.len() implies (#[trigger] front[a]).id@
            != rows[i].id by {
            assert(front[a] == changes[a]);
        }
        lemma_expanded_untouched(rows, front, i);
        assert(k == i);
    } else {
        assert forall|a: int, b: int| 0 <= a < b < front.len() implies (#[trigger] front[a]).id@
            != (#[trigger] front[b]).id@ by {
            assert(front[a] == changes[a]);
            assert(front[b] == changes[b]);
        }
        assert(front[c] == changes[c]);
        lemma_expanded_original(rows, front, c, i);
        assert(last == changes[changes.len() - 1]);
        assert(k != i);
    }
}

proof fn lemma_expanded_photo(rows: Seq<PhotoView>, changes: Seq<SortPathChange>, c: int, i: int)
    requires
        photos_expanded(rows, changes) is Some,
        photo_ids(rows).no_duplicates(),
        0 <= c < changes.len(),
        0 <= i < rows.len(),
        changes[c].id@ == rows[i].id,
        forall|a: int, b: int|
            0 <= a < b < changes.len() ==> (#[trigger] changes[a]).id@ != (
            #[trigger] changes[b]).id@,
    ensures
        photos_expanded(rows, changes)->0.len() == rows.len(),
        ({
            let after = photos_expanded(rows, changes)->0[i];
            &&& after.sort_path == changes[c].sort_path@
            &&& after.preview_state == PreviewState::InspectionPending
            &&& after.preview_source_revision is None
            &&& after.preview_width is None
            &&& after.preview_height is None
            &&& after.cache_revision is None
        }),
    decreases changes.len(),
{
    let front = changes.drop_last();
    let before = photos_expanded(rows, front)->0;
    let last = changes.last();
    law_expansion_preserves_photos(rows, front);
    lemma_last_index_found(photo_ids(before), last.id@);
    assert(photo_ids(rows)[i] == rows[i].id);
    assert(photo_ids(before)[i] == rows[i].id) by {
        assert(preserved_photo(before[i], rows[i]));
    }
    let k = last_index(photo_ids(before), last.id@)->0;
    assert(photo_ids(before)[k] == photo_ids(rows)[k]) by {
        assert(preserved_photo(before[k], rows[k]));
    }
    if c == changes.len() - 1 {
        assert(k == i);
    } else {
        assert forall|a: int, b: int| 0 <= a < b < front.len() implies (#[trigger] front[a]).id@
            != (#[trigger] front[b]).id@ by {
            assert(front[a] == changes[a]);
            assert(front[b] == changes[b]);
        }
        assert(front[c] == changes[c]);
        lemma_expanded_photo(rows, front, c, i);
        assert(last == changes[changes.len() - 1]);
        assert(k != i);
    }
}

/// Carrying out a plan moves each Original File that it names from its old path to its
/// new one, and its capture facts are read anew; everything else of it stays.
pub proof fn law_planned_originals_move(
    before: Seq<OriginalRecord>,
    changes: Seq<LocationChange>,
    after: Seq<OriginalRecord>,
    c: int,
    i: int,
)
    requires
        originals_expanded(originals_view(before), changes) == Ok::<
            Seq<OriginalView>,
            PersistenceError,
        >(originals_view(after)),
        0 <= c < changes.len(),
        0 <= i < before.len(),
        changes[c].id@ == before[i].id@,
        forall|a: int, b: int|
            0 <= a < b < before.len() ==> (#[trigger] before[a]).id@ != (#[trigger] before[b]).id@,
        forall|a: int, b: int|
            0 <= a < b < changes.len() ==> (#[trigger] changes[a]).id@ != (
            #[trigger] changes[b]).id@,
    ensures
        after.len() == before.len(),
        before[i].relative_path@ == changes[c].old_path@,
        after[i].id@ == before[i].id@,
        after[i].relative_path@ == changes[c].new_path@,
        after[i].kind == before[i].kind,
        after[i].size == before[i].size,
        after[i].mtime_ms == before[i].mtime_ms,
        after[i].available == before[i].available,
        after[i].error_category == before[i].error_category,
        opt_text(after[i].error_message) == opt_text(before[i].error_message),
        after[i].capture.state == CaptureMetadataState::Pending,
        after[i].capture.order_key is None,
        after[i].capture.field is None,
        after[i].capture.offset_minutes is None,
        after[i].capture.source_revision is None,
{
    let rows = originals_view(before);
    assert(original_ids(rows).no_duplicates()) by {
        assert forall|a: int, b: int|
            0 <= a < original_ids(rows).len() && 0 <= b < original_ids(rows).len() && a
                != b implies original_ids(rows)[a] != original_ids(rows)[b] by {
            assert(original_ids(rows)[a] == before[a].id@);
            assert(original_ids(rows)[b] == before[b].id@);
        }
    }
    assert(rows[i] == before[i]@);
    lemma_expanded_original(rows, changes, c, i);
    assert(originals_view(after).len() == after.len());
    assert(originals_view(after)[i] == after[i]@);
    assert(after[i].capture@ == pending_capture());
}

/// Carrying out a plan gives each Photo that it names its new sort path and has its
/// Preview inspected anew; what was decided about the Photo stays.
pub proof fn law_planned_photos_are_inspected_anew(
    before: Seq<PhotoRecord>,
    changes: Seq<SortPathChange>,
    after: Seq<PhotoRecord>,
    c: int,
    i: int,
)
    requires
        photos_expanded(photos_view(before), changes) == Some(photos_view(after)),
        0 <= c < changes.len(),
        0 <= i < before.len(),
        changes[c].id@ == before[i].id@,
        forall|a: int, b: int|
            0 <= a < b < before.len() ==> (#[trigger] before[a]).id@ != (#[trigger] before[b]).id@,
        forall|a: int, b: int|
            0 <= a < b < changes.len() ==> (#[trigger] changes[a]).id@ != (
            #[trigger] changes[b]).id@,
    ensures
        after.len() == before.len(),
        after[i].id@ == before[i].id@,
        after[i].original_id@ == before[i].original_id@,
        after[i].sort_path@ == changes[c].sort_path@,
        after[i].preview_state == PreviewState::InspectionPending,
        after[i].preview_source_revision is None,
        after[i].preview_width is None,
        after[i].preview_height is None,
        after[i].cache_revision is None,
        after[i].available == before[i].available,
        after[i].selection_state == before[i].selection_state,
        after[i].rating == before[i].rating,
        after[i].has_saved_edits == before[i].has_saved_edits,
        after[i].removed == before[i].removed,
{
    let rows = photos_view(before);
    assert(photo_ids(rows).no_duplicates()) by {
        assert forall|a: int, b: int|
            0 <= a < photo_ids(rows).len() && 0 <= b < photo_ids(rows).len() && a != b implies
            photo_ids(rows)[a] != photo_ids(rows)[b] by {
            assert(photo_ids(rows)[a] == before[a].id@);
            assert(photo_ids(rows)[b] == before[b].id@);
        }
    }
    assert(rows[i] == before[i]@);
    lemma_expanded_photo(rows, changes, c, i);
    law_expansion_preserves_photos(rows, changes);
    assert(preserved_photo(photos_expanded(rows, changes)->0[i], rows[i]));
    assert(photos_view(after).len() == after.len());
    assert(photos_view(after)[i] == after[i]@);
}

/// A plan names every Original File once, from the path that is stored to that path
/// behind the prefix and a slash, and gives every Photo the new path of its Original
/// File.
pub proof fn law_plans_put_the_prefix_before(
    plan: ExpansionPlan,
    originals: Seq<ExpansionOriginal>,
    photos: Seq<ExpansionPhoto>,
    prefix: Seq<char>,
    i: int,
    p: int,
)
    requires
        plannable(originals, photos, prefix),
        plans(plan, originals, photos, prefix),
        0 <= i < originals.len(),
        0 <= p < photos.len(),
        forall|a: int, b: int|
            0 <= a < b < originals.len() ==> (#[trigger] originals[a]).id@ != (
            #[trigger] originals[b]).id@,
    ensures
        plan.originals.len() == originals.len(),
        plan.photo_sort_paths.len() == photos.len(),
        plan.originals@[i].id@ == originals[i].id@,
        plan.originals@[i].old_path@ == originals[i].relative_path@,
        originals[i].location is Some,
        plan.originals@[i].new_path@ == prefix + seq!['/'] + originals[i].location->0@,
        plan.photo_sort_paths@[p].id@ == photos[p].id@,
        originals[i].id@ == photos[p].original_id@ ==> plan.photo_sort_paths@[p].sort_path@
            == prefix + seq!['/'] + originals[i].location->0@,
{
    reveal_strlit("/");
    assert("/"@ =~= seq!['/']);
    assert(expandable(originals[i]));
    let ids = expansion_ids(originals);
    if originals[i].id@ == photos[p].original_id@ {
        assert(ids[i] == originals[i].id@);
        assert forall|j: int| i < j < ids.len() implies ids[j] != ids[i] by {
            assert(ids[j] == originals[j].id@);
        }
        lemma_last_index(ids, ids[i], i);
    }
}

/// A plan is made only where every Original File has a Location, also behind the prefix,
/// and is named as the kind that is stored, no two come to the same path, and every
/// Photo has its Original File.
pub proof fn law_plans_are_made_of_whole_libraries(
    originals: Seq<ExpansionOriginal>,
    photos: Seq<ExpansionPhoto>,
    prefix: Seq<char>,
    i: int,
    j: int,
    p: int,
)
    requires
        plannable(originals, photos, prefix),
    ensures
        0 <= i < originals.len() ==> {
            &&& originals[i].location is Some
            &&& originals[i].prefixed_is_location
            &&& (originals[i].kind@ == "raw"@ && originals[i].named_kind == Some(
                OriginalKind::Raw,
            )) || (originals[i].kind@ == "jpeg"@ && originals[i].named_kind == Some(
                OriginalKind::Jpeg,
            ))
        },
        0 <= i < j < originals.len() ==> originals[i].location->0@ != originals[j].location->0@,
        0 <= p < photos.len() ==> exists|k: int|
            0 <= k < originals.len() && (#[trigger] originals[k]).id@ == photos[p].original_id@,
{
    reveal_strlit("raw");
    reveal_strlit("jpeg");
    assert("raw"@.len() != "jpeg"@.len());
    let paths = prefixed_paths(originals, prefix);
    let ids = expansion_ids(originals);
    if 0 <= i < originals.len() {
        assert(expandable(originals[i]));
    }
    if 0 <= i < j < originals.len() {
        assert(paths[i] != paths[j]);
    }
    if 0 <= p < photos.len() {
        assert(ids.contains(photos[p].original_id@));
        let k = choose|k: int| 0 <= k < ids.len() && ids[k] == photos[p].original_id@;
        assert(originals[k].id@ == photos[p].original_id@);
    }
}

/// Where all of that holds, a plan is made.
pub proof fn law_whole_libraries_are_planned(
    originals: Seq<ExpansionOriginal>,
    photos: Seq<ExpansionPhoto>,
    prefix: Seq<char>,
)
    requires
        forall|i: int|
            0 <= i < originals.len() ==> (#[trigger] originals[i]).location is Some
                && originals[i].prefixed_is_location && ((originals[i].kind@ == "raw"@
                && originals[i].named_kind == Some(OriginalKind::Raw)) || (originals[i].kind@
                == "jpeg"@ && originals[i].named_kind == Some(OriginalKind::Jpeg))),
        forall|i: int, j: int|
            0 <= i < j < originals.len() ==> (#[trigger] originals[i]).location->0@ != (
            #[trigger] originals[j]).location->0@,
        forall|p: int|
            0 <= p < photos.len() ==> exists|i: int|
                0 <= i < originals.len() && (#[trigger] originals[i]).id@ == (
                #[trigger] photos[p]).original_id@,
    ensures
        plannable(originals, photos, prefix),
{
    reveal_strlit("raw");
    reveal_strlit("jpeg");
    assert("raw"@.len() != "jpeg"@.len());
    let paths = prefixed_paths(originals, prefix);
    let ids = expansion_ids(originals);
    assert forall|i: int| 0 <= i < originals.len() implies expandable(#[trigger] originals[i]) by {
    }
    assert forall|i: int, j: int|
        0 <= i < paths.len() && 0 <= j < paths.len() && i != j implies paths[i] != paths[j] by {
        law_prefixes_keep_locations_apart(
            prefix,
            originals[i].location->0@,
            originals[j].location->0@,
        );
        if i < j {
            assert(originals[i].location->0@ != originals[j].location->0@);
        } else {
            assert(originals[j].location->0@ != originals[i].location->0@);
        }
    }
    assert forall|p: int| 0 <= p < photos.len() implies ids.contains(
        (#[trigger] photos[p]).original_id@,
    ) by {
        let i = choose|i: int|
            0 <= i < originals.len() && (#[trigger] originals[i]).id@ == photos[p].original_id@;
        assert(ids[i] == photos[p].original_id@);
    }
}

/// A Library is expanded only where it is bound to a root, its database is one of the two
/// newest that can be read, the directory was the same one throughout, and the root is
/// still the one that was bound.
pub proof fn law_expansions_are_checked(
    stored: Option<String>,
    root: Result<String, PersistenceError>,
    canonical_eight: bool,
    canonical_seven: bool,
    expandable: Result<(), PersistenceError>,
    before: Option<bool>,
    scanned: bool,
    after: Option<bool>,
    same: Result<(), PersistenceError>,
    current: Option<String>,
    bound: String,
    unchanged: Result<(), PersistenceError>,
)
    requires
        call_ensures(required_root_binding, (stored,), root),
        call_ensures(check_expandable, (canonical_eight, canonical_seven), expandable),
        call_ensures(check_same_directory, (before, scanned, after), same),
        call_ensures(check_root_unchanged, (current, &bound), unchanged),
    ensures
        stored is Some ==> root == Ok::<String, PersistenceError>(stored->0),
        stored is None ==> root == Err::<String, PersistenceError>(
            PersistenceError::InvalidExpansion,
        ),
        expandable is Ok <==> canonical_eight || canonical_seven,
        expandable is Err ==> expandable->Err_0 is UnsupportedSchema,
        same is Ok ==> scanned && before == Some(true) && after == Some(true),
        scanned && before == Some(true) && after == Some(true) ==> same is Ok,
        same is Err ==> same->Err_0 is InvalidExpansion,
        unchanged is Ok <==> current is Some && current->0@ == bound@,
        unchanged is Err && current is None ==> unchanged->Err_0 is InvalidExpansion,
        unchanged is Err && current is Some ==> unchanged->Err_0 is RootMismatch,
{
}

} // verus!
