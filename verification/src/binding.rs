//! How a library is bound to a larger root: what is read and accepted on the way,
//! and what the library holds once it is bound.
use crate::binary::{same_real, Real};
use crate::codec::{
    CaptureMetadataState, OriginalErrorCategory, OriginalKind, PreviewState, SelectionState,
};
use crate::error::PersistenceError;
use crate::expansion::{
    check_expandable, check_journal, check_root_unchanged, check_same_directory, expand_library,
    expandable, expansion_plan, expansion_prefix, law_expansion_preserves_originals,
    law_expansion_preserves_photos, law_planned_originals_move,
    law_planned_photos_are_inspected_anew, originals_expanded, photos_expanded, plannable, plans,
    preserved_original, preserved_photo, required_root_binding, way_down, ExpansionOriginal,
    ExpansionPhoto, ExpansionPlan,
};
use crate::numeral::folded;
use crate::scan_state::{originals_view, photos_view, OriginalRecord, OriginalView, PhotoRecord,
    PhotoView};
use crate::text::{clone_opt_text, opt_text, same_opt_text, same_text};
use vstd::prelude::*;
use vstd::string::*;

verus! {

/// What the database tells before it is opened for writing: whether its schema is
/// exactly that of version eight or of version seven, and the root it is bound to.
#[derive(Clone, Debug, PartialEq, Eq)]
pub struct BoundDatabase {
    pub canonical_eight: bool,
    pub canonical_seven: bool,
    pub stored_root: Option<String>,
}

/// The root that a library is bound to, and the way down to it from a proposed
/// one.
#[derive(Clone, Debug, PartialEq, Eq)]
pub struct ProposedExpansion {
    pub stored_root: String,
    pub prefix: String,
}

/// Begins to bind a library to a larger root. What it ends in is yet to be read as
/// a Location.
pub fn propose_expansion(database: BoundDatabase, proposed: &String) -> (result: Result<
    ProposedExpansion,
    PersistenceError,
>)
    ensures
        if !database.canonical_eight && !database.canonical_seven {
            result == Err::<ProposedExpansion, PersistenceError>(
                PersistenceError::UnsupportedSchema,
            )
        } else {
            match database.stored_root {
                None => result == Err::<ProposedExpansion, PersistenceError>(
                    PersistenceError::InvalidExpansion,
                ),
                Some(stored) => match way_down(proposed@, stored@) {
                    None => result == Err::<ProposedExpansion, PersistenceError>(
                        PersistenceError::InvalidExpansion,
                    ),
                    Some(rest) => result is Ok && result->Ok_0.stored_root == stored
                        && result->Ok_0.prefix@ == rest,
                },
            }
        },
{
    match check_expandable(database.canonical_eight, database.canonical_seven) {
        Err(error) => {
            return Err(error);
        },
        Ok(_) => {},
    }
    let stored_root: String = match required_root_binding(database.stored_root) {
        Err(error) => {
            return Err(error);
        },
        Ok(root) => root,
    };
    match expansion_prefix(proposed, &stored_root) {
        Err(error) => Err(error),
        Ok(prefix) => Ok(ProposedExpansion { stored_root, prefix }),
    }
}

/// The stored row of an Album.
#[derive(Clone, Debug, PartialEq, Eq)]
pub struct AlbumEntry {
    pub id: String,
    pub name: String,
    pub created_at: i64,
}

/// The stored row of an Album's member.
#[derive(Clone, Debug, PartialEq, Eq)]
pub struct MemberEntry {
    pub album_id: String,
    pub photo_id: String,
    pub position: i64,
}

/// The stored browsing position of an Album.
#[derive(Clone, Debug, PartialEq, Eq)]
pub struct ProgressEntry {
    pub album_id: String,
    pub photo_id: String,
}

/// The rows of a library that an expansion reads, each list in the order of its
/// identities.
#[derive(Clone, Debug, PartialEq, Eq)]
pub struct LibraryRows {
    pub originals: Vec<OriginalRecord>,
    pub photos: Vec<PhotoRecord>,
    pub albums: Vec<AlbumEntry>,
    pub members: Vec<MemberEntry>,
    pub progress: Vec<ProgressEntry>,
}

/// What an expansion has to leave of an Original File as it was.
#[derive(Clone, Debug, PartialEq, Eq)]
pub struct PreservedOriginal {
    pub id: String,
    pub kind: OriginalKind,
    pub size: u64,
    pub mtime_ms: Real,
    pub available: bool,
    pub error_category: Option<OriginalErrorCategory>,
    pub error_message: Option<String>,
}

/// What an expansion has to leave of a Photo as it was.
#[derive(Clone, Debug, PartialEq, Eq)]
pub struct PreservedPhoto {
    pub id: String,
    pub original_id: String,
    pub available: bool,
    pub selection_state: SelectionState,
    pub rating: u8,
}

/// What an expansion has to leave of a library as it was.
#[derive(Clone, Debug, PartialEq, Eq)]
pub struct ExpansionProjection {
    pub originals: Vec<PreservedOriginal>,
    pub photos: Vec<PreservedPhoto>,
    pub albums: Vec<AlbumEntry>,
    pub members: Vec<MemberEntry>,
    pub progress: Vec<ProgressEntry>,
}

/// Whether a preserved Original File tells a row.
pub open spec fn tells_original(kept: PreservedOriginal, row: OriginalView) -> bool {
    &&& kept.id@ == row.id
    &&& kept.kind == row.kind
    &&& kept.size == row.size
    &&& kept.mtime_ms == row.mtime_ms
    &&& kept.available == row.available
    &&& kept.error_category == row.error_category
    &&& opt_text(kept.error_message) == row.error_message
}

/// Whether a preserved Photo tells a row.
pub open spec fn tells_photo(kept: PreservedPhoto, row: PhotoView) -> bool {
    &&& kept.id@ == row.id
    &&& kept.original_id@ == row.original_id
    &&& kept.available == row.available
    &&& kept.selection_state == row.selection_state
    &&& kept.rating == row.rating
}

/// Whether a projection tells the Original Files and Photos of a library.
pub open spec fn projects(
    kept: ExpansionProjection,
    originals: Seq<OriginalView>,
    photos: Seq<PhotoView>,
) -> bool {
    &&& kept.originals@.len() == originals.len()
    &&& forall|i: int|
        0 <= i < originals.len() ==> tells_original(#[trigger] kept.originals@[i], originals[i])
    &&& kept.photos@.len() == photos.len()
    &&& forall|i: int|
        0 <= i < photos.len() ==> tells_photo(#[trigger] kept.photos@[i], photos[i])
}

/// What an expansion has to leave of a library as it was.
pub fn expansion_projection(rows: &LibraryRows) -> (kept: ExpansionProjection)
    ensures
        projects(kept, originals_view(rows.originals@), photos_view(rows.photos@)),
        kept.albums@ == rows.albums@,
        kept.members@ == rows.members@,
        kept.progress@ == rows.progress@,
{
    let mut originals: Vec<PreservedOriginal> = Vec::new();
    let mut i: usize = 0;
    while i < rows.originals.len()
        invariant
            i <= rows.originals.len(),
            originals.len() == i,
            forall|j: int|
                0 <= j < i ==> tells_original(
                    #[trigger] originals@[j],
                    originals_view(rows.originals@)[j],
                ),
        decreases rows.originals.len() - i,
    {
        let row: &OriginalRecord = &rows.originals[i];
        originals.push(
            PreservedOriginal {
                id: row.id.clone(),
                kind: row.kind,
                size: row.size,
                mtime_ms: row.mtime_ms,
                available: row.available,
                error_category: row.error_category,
                error_message: clone_opt_text(&row.error_message),
            },
        );
        i = i + 1;
    }
    let mut photos: Vec<PreservedPhoto> = Vec::new();
    let mut k: usize = 0;
    while k < rows.photos.len()
        invariant
            k <= rows.photos.len(),
            photos.len() == k,
            forall|j: int|
                0 <= j < k ==> tells_photo(#[trigger] photos@[j], photos_view(rows.photos@)[j]),
        decreases rows.photos.len() - k,
    {
        let row: &PhotoRecord = &rows.photos[k];
        photos.push(
            PreservedPhoto {
                id: row.id.clone(),
                original_id: row.original_id.clone(),
                available: row.available,
                selection_state: row.selection_state,
                rating: row.rating,
            },
        );
        k = k + 1;
    }
    ExpansionProjection {
        originals,
        photos,
        albums: copy_albums(&rows.albums),
        members: copy_members(&rows.members),
        progress: copy_progress(&rows.progress),
    }
}

fn copy_albums(rows: &Vec<AlbumEntry>) -> (copy: Vec<AlbumEntry>)
    ensures
        copy@ == rows@,
{
    let mut copy: Vec<AlbumEntry> = Vec::new();
    let mut i: usize = 0;
    while i < rows.len()
        invariant
            i <= rows.len(),
            copy@ == rows@.take(i as int),
        decreases rows.len() - i,
    {
        assert(rows@.take(i + 1) =~= rows@.take(i as int).push(rows@[i as int]));
        copy.push(
            AlbumEntry {
                id: rows[i].id.clone(),
                name: rows[i].name.clone(),
                created_at: rows[i].created_at,
            },
        );
        i = i + 1;
    }
    assert(rows@.take(rows@.len() as int) =~= rows@);
    copy
}

fn copy_members(rows: &Vec<MemberEntry>) -> (copy: Vec<MemberEntry>)
    ensures
        copy@ == rows@,
{
    let mut copy: Vec<MemberEntry> = Vec::new();
    let mut i: usize = 0;
    while i < rows.len()
        invariant
            i <= rows.len(),
            copy@ == rows@.take(i as int),
        decreases rows.len() - i,
    {
        assert(rows@.take(i + 1) =~= rows@.take(i as int).push(rows@[i as int]));
        copy.push(
            MemberEntry {
                album_id: rows[i].album_id.clone(),
                photo_id: rows[i].photo_id.clone(),
                position: rows[i].position,
            },
        );
        i = i + 1;
    }
    assert(rows@.take(rows@.len() as int) =~= rows@);
    copy
}

fn copy_progress(rows: &Vec<ProgressEntry>) -> (copy: Vec<ProgressEntry>)
    ensures
        copy@ == rows@,
{
    let mut copy: Vec<ProgressEntry> = Vec::new();
    let mut i: usize = 0;
    while i < rows.len()
        invariant
            i <= rows.len(),
            copy@ == rows@.take(i as int),
        decreases rows.len() - i,
    {
        assert(rows@.take(i + 1) =~= rows@.take(i as int).push(rows@[i as int]));
        copy.push(
            ProgressEntry {
                album_id: rows[i].album_id.clone(),
                photo_id: rows[i].photo_id.clone(),
            },
        );
        i = i + 1;
    }
    assert(rows@.take(rows@.len() as int) =~= rows@);
    copy
}

/// Whether two preserved Original Files are equal; their times as numbers.
pub open spec fn same_kept_original(a: PreservedOriginal, b: PreservedOriginal) -> bool {
    &&& a.id@ == b.id@
    &&& a.kind == b.kind
    &&& a.size == b.size
    &&& same_real(a.mtime_ms, b.mtime_ms)
    &&& a.available == b.available
    &&& a.error_category == b.error_category
    &&& opt_text(a.error_message) == opt_text(b.error_message)
}

/// Whether two preserved Photos are equal.
pub open spec fn same_kept_photo(a: PreservedPhoto, b: PreservedPhoto) -> bool {
    &&& a.id@ == b.id@
    &&& a.original_id@ == b.original_id@
    &&& a.available == b.available
    &&& a.selection_state == b.selection_state
    &&& a.rating == b.rating
}

/// Whether two Album rows are equal.
pub open spec fn same_album_entry(a: AlbumEntry, b: AlbumEntry) -> bool {
    a.id@ == b.id@ && a.name@ == b.name@ && a.created_at == b.created_at
}

/// Whether two member rows are equal.
pub open spec fn same_member_entry(a: MemberEntry, b: MemberEntry) -> bool {
    a.album_id@ == b.album_id@ && a.photo_id@ == b.photo_id@ && a.position == b.position
}

/// Whether two browsing positions are equal.
pub open spec fn same_progress_entry(a: ProgressEntry, b: ProgressEntry) -> bool {
    a.album_id@ == b.album_id@ && a.photo_id@ == b.photo_id@
}

/// Whether two projections are equal.
pub open spec fn projections_agree(a: ExpansionProjection, b: ExpansionProjection) -> bool {
    &&& a.originals@.len() == b.originals@.len()
    &&& forall|i: int|
        0 <= i < a.originals@.len() ==> same_kept_original(
            #[trigger] a.originals@[i],
            b.originals@[i],
        )
    &&& a.photos@.len() == b.photos@.len()
    &&& forall|i: int|
        0 <= i < a.photos@.len() ==> same_kept_photo(#[trigger] a.photos@[i], b.photos@[i])
    &&& a.albums@.len() == b.albums@.len()
    &&& forall|i: int|
        0 <= i < a.albums@.len() ==> same_album_entry(#[trigger] a.albums@[i], b.albums@[i])
    &&& a.members@.len() == b.members@.len()
    &&& forall|i: int|
        0 <= i < a.members@.len() ==> same_member_entry(#[trigger] a.members@[i], b.members@[i])
    &&& a.progress@.len() == b.progress@.len()
    &&& forall|i: int|
        0 <= i < a.progress@.len() ==> same_progress_entry(
            #[trigger] a.progress@[i],
            b.progress@[i],
        )
}

fn same_originals(a: &Vec<PreservedOriginal>, b: &Vec<PreservedOriginal>) -> (answer: bool)
    ensures
        answer == (a@.len() == b@.len() && forall|i: int|
            0 <= i < a@.len() ==> same_kept_original(#[trigger] a@[i], b@[i])),
{
    if a.len() != b.len() {
        return false;
    }
    let mut i: usize = 0;
    while i < a.len()
        invariant
            i <= a.len(),
            a.len() == b.len(),
            forall|j: int| 0 <= j < i ==> same_kept_original(#[trigger] a@[j], b@[j]),
        decreases a.len() - i,
    {
        let (x, y): (&PreservedOriginal, &PreservedOriginal) = (&a[i], &b[i]);
        if !(same_text(&x.id, &y.id) && x.kind == y.kind && x.size == y.size && x.mtime_ms.same(
            y.mtime_ms,
        ) && x.available == y.available && x.error_category == y.error_category && same_opt_text(
            &x.error_message,
            &y.error_message,
        )) {
            assert(!same_kept_original(a@[i as int], b@[i as int]));
            return false;
        }
        i = i + 1;
    }
    true
}

fn same_photos(a: &Vec<PreservedPhoto>, b: &Vec<PreservedPhoto>) -> (answer: bool)
    ensures
        answer == (a@.len() == b@.len() && forall|i: int|
            0 <= i < a@.len() ==> same_kept_photo(#[trigger] a@[i], b@[i])),
{
    if a.len() != b.len() {
        return false;
    }
    let mut i: usize = 0;
    while i < a.len()
        invariant
            i <= a.len(),
            a.len() == b.len(),
            forall|j: int| 0 <= j < i ==> same_kept_photo(#[trigger] a@[j], b@[j]),
        decreases a.len() - i,
    {
        let (x, y): (&PreservedPhoto, &PreservedPhoto) = (&a[i], &b[i]);
        if !(same_text(&x.id, &y.id) && same_text(&x.original_id, &y.original_id) && x.available
            == y.available && x.selection_state == y.selection_state && x.rating == y.rating) {
            assert(!same_kept_photo(a@[i as int], b@[i as int]));
            return false;
        }
        i = i + 1;
    }
    true
}

fn same_albums(a: &Vec<AlbumEntry>, b: &Vec<AlbumEntry>) -> (answer: bool)
    ensures
        answer == (a@.len() == b@.len() && forall|i: int|
            0 <= i < a@.len() ==> same_album_entry(#[trigger] a@[i], b@[i])),
{
    if a.len() != b.len() {
        return false;
    }
    let mut i: usize = 0;
    while i < a.len()
        invariant
            i <= a.len(),
            a.len() == b.len(),
            forall|j: int| 0 <= j < i ==> same_album_entry(#[trigger] a@[j], b@[j]),
        decreases a.len() - i,
    {
        if !(same_text(&a[i].id, &b[i].id) && same_text(&a[i].name, &b[i].name) && a[i].created_at
            == b[i].created_at) {
            assert(!same_album_entry(a@[i as int], b@[i as int]));
            return false;
        }
        i = i + 1;
    }
    true
}

fn same_members(a: &Vec<MemberEntry>, b: &Vec<MemberEntry>) -> (answer: bool)
    ensures
        answer == (a@.len() == b@.len() && forall|i: int|
            0 <= i < a@.len() ==> same_member_entry(#[trigger] a@[i], b@[i])),
{
    if a.len() != b.len() {
        return false;
    }
    let mut i: usize = 0;
    while i < a.len()
        invariant
            i <= a.len(),
            a.len() == b.len(),
            forall|j: int| 0 <= j < i ==> same_member_entry(#[trigger] a@[j], b@[j]),
        decreases a.len() - i,
    {
        if !(same_text(&a[i].album_id, &b[i].album_id) && same_text(&a[i].photo_id, &b[i].photo_id)
            && a[i].position == b[i].position) {
            assert(!same_member_entry(a@[i as int], b@[i as int]));
            return false;
        }
        i = i + 1;
    }
    true
}

fn same_positions(a: &Vec<ProgressEntry>, b: &Vec<ProgressEntry>) -> (answer: bool)
    ensures
        answer == (a@.len() == b@.len() && forall|i: int|
            0 <= i < a@.len() ==> same_progress_entry(#[trigger] a@[i], b@[i])),
{
    if a.len() != b.len() {
        return false;
    }
    let mut i: usize = 0;
    while i < a.len()
        invariant
            i <= a.len(),
            a.len() == b.len(),
            forall|j: int| 0 <= j < i ==> same_progress_entry(#[trigger] a@[j], b@[j]),
        decreases a.len() - i,
    {
        if !(same_text(&a[i].album_id, &b[i].album_id) && same_text(
            &a[i].photo_id,
            &b[i].photo_id,
        )) {
            assert(!same_progress_entry(a@[i as int], b@[i as int]));
            return false;
        }
        i = i + 1;
    }
    true
}

/// Whether two projections are equal.
pub fn same_projection(a: &ExpansionProjection, b: &ExpansionProjection) -> (answer: bool)
    ensures
        answer == projections_agree(*a, *b),
{
    same_originals(&a.originals, &b.originals) && same_photos(&a.photos, &b.photos) && same_albums(
        &a.albums,
        &b.albums,
    ) && same_members(&a.members, &b.members) && same_positions(&a.progress, &b.progress)
}

/// What is known when a library is bound to a larger root. `sound` says that the
/// database was checked and is whole; `rows` and `photo_rows` are what the plan is
/// made of; `preserved` is the library as it was
/// planned on; `root` and `library` are read once no one else can write, and
/// `canonical` says that the schema is exactly the current one then.
#[derive(Clone, Debug, PartialEq, Eq)]
pub struct ExpansionFacts {
    pub same_before: Option<bool>,
    pub scanned: bool,
    pub same_after: Option<bool>,
    pub journal: String,
    pub planned_root: Option<String>,
    pub sound: bool,
    pub rows: Vec<ExpansionOriginal>,
    pub photo_rows: Vec<ExpansionPhoto>,
    pub preserved: ExpansionProjection,
    pub canonical: bool,
    pub root: Option<String>,
    pub library: LibraryRows,
}

/// A library that is bound to a larger root.
#[derive(Clone, Debug, PartialEq, Eq)]
pub struct ExpandedLibrary {
    pub root: String,
    pub originals: Vec<OriginalRecord>,
    pub photos: Vec<PhotoRecord>,
}

/// What refuses to bind a library before anything is planned.
pub open spec fn unfit(facts: ExpansionFacts, stored_root: Seq<char>) -> Option<PersistenceError> {
    if !(facts.same_before == Some(true) && facts.scanned && facts.same_after == Some(true)) {
        Some(PersistenceError::InvalidExpansion)
    } else if folded(facts.journal@) != folded("delete"@) {
        Some(PersistenceError::UnsupportedSchema)
    } else {
        match facts.planned_root {
            None => Some(PersistenceError::InvalidExpansion),
            Some(root) => if root@ != stored_root {
                Some(PersistenceError::RootMismatch)
            } else if !facts.sound {
                Some(PersistenceError::Storage)
            } else {
                None
            },
        }
    }
}

/// Whether a library is still the one that an expansion was planned on: bound to
/// the same root, with the same projection.
pub open spec fn unmoved(facts: ExpansionFacts, stored_root: Seq<char>) -> bool {
    &&& opt_text(facts.root) == Some(stored_root)
    &&& forall|now: ExpansionProjection|
        projects(
            now,
            originals_view(facts.library.originals@),
            photos_view(facts.library.photos@),
        ) && now.albums@ == facts.library.albums@ && now.members@ == facts.library.members@
            && now.progress@ == facts.library.progress@ ==> #[trigger] projections_agree(
            now,
            facts.preserved,
        )
}

/// What binding a library to a larger root ends in.
pub open spec fn expansion_decided(
    facts: ExpansionFacts,
    expansion: ProposedExpansion,
    proposed: Seq<char>,
    result: Result<ExpandedLibrary, PersistenceError>,
) -> bool {
    let before = originals_view(facts.library.originals@);
    let shown = photos_view(facts.library.photos@);
    match unfit(facts, expansion.stored_root@) {
        Some(error) => result == Err::<ExpandedLibrary, PersistenceError>(error),
        None => if !plannable(facts.rows@, facts.photo_rows@, expansion.prefix@) {
            result == Err::<ExpandedLibrary, PersistenceError>(PersistenceError::InvalidExpansion)
        } else if !facts.canonical {
            result == Err::<ExpandedLibrary, PersistenceError>(PersistenceError::UnsupportedSchema)
        } else if !unmoved(facts, expansion.stored_root@) {
            result == Err::<ExpandedLibrary, PersistenceError>(PersistenceError::InvalidExpansion)
        } else {
            exists|plan: ExpansionPlan|
                #![trigger plans(plan, facts.rows@, facts.photo_rows@, expansion.prefix@)]
                plans(plan, facts.rows@, facts.photo_rows@, expansion.prefix@) && (match (
                    originals_expanded(before, plan.originals@),
                    photos_expanded(shown, plan.photo_sort_paths@),
                ) {
                    (Err(error), _) => result == Err::<ExpandedLibrary, PersistenceError>(error),
                    (Ok(_), None) => result == Err::<ExpandedLibrary, PersistenceError>(
                        PersistenceError::InvalidExpansion,
                    ),
                    (Ok(a), Some(b)) => {
                        &&& result is Ok
                        &&& result->Ok_0.root@ == proposed
                        &&& originals_view(result->Ok_0.originals@) == a
                        &&& photos_view(result->Ok_0.photos@) == b
                    },
                })
        },
    }
}

proof fn lemma_projections_are_one(
    a: ExpansionProjection,
    b: ExpansionProjection,
    kept: ExpansionProjection,
    originals: Seq<OriginalView>,
    photos: Seq<PhotoView>,
)
    requires
        projects(a, originals, photos),
        projects(b, originals, photos),
        a.albums@ == b.albums@,
        a.members@ == b.members@,
        a.progress@ == b.progress@,
    ensures
        projections_agree(a, kept) == projections_agree(b, kept),
{
    assert forall|i: int| 0 <= i < originals.len() implies same_kept_original(
        #[trigger] a.originals@[i],
        kept.originals@[i],
    ) == same_kept_original(b.originals@[i], kept.originals@[i]) by {
        assert(tells_original(a.originals@[i], originals[i]));
        assert(tells_original(b.originals@[i], originals[i]));
    }
    assert forall|i: int| 0 <= i < photos.len() implies same_kept_photo(
        #[trigger] a.photos@[i],
        kept.photos@[i],
    ) == same_kept_photo(b.photos@[i], kept.photos@[i]) by {
        assert(tells_photo(a.photos@[i], photos[i]));
        assert(tells_photo(b.photos@[i], photos[i]));
    }
    if projections_agree(a, kept) {
        assert forall|i: int| 0 <= i < b.originals@.len() implies same_kept_original(
            #[trigger] b.originals@[i],
            kept.originals@[i],
        ) by {
            assert(same_kept_original(a.originals@[i], kept.originals@[i]));
        }
        assert forall|i: int| 0 <= i < b.photos@.len() implies same_kept_photo(
            #[trigger] b.photos@[i],
            kept.photos@[i],
        ) by {
            assert(same_kept_photo(a.photos@[i], kept.photos@[i]));
        }
    }
    if projections_agree(b, kept) {
        assert forall|i: int| 0 <= i < a.originals@.len() implies same_kept_original(
            #[trigger] a.originals@[i],
            kept.originals@[i],
        ) by {
            assert(same_kept_original(b.originals@[i], kept.originals@[i]));
        }
        assert forall|i: int| 0 <= i < a.photos@.len() implies same_kept_photo(
            #[trigger] a.photos@[i],
            kept.photos@[i],
        ) by {
            assert(same_kept_photo(b.photos@[i], kept.photos@[i]));
        }
    }
}

/// Binds a library to a larger root: every Original File is found below the
/// prefix, and what may not change is as it was. Nothing has changed yet: it holds
/// once the rows are stored.
pub fn expand_library_binding(
    facts: ExpansionFacts,
    expansion: &ProposedExpansion,
    proposed: &String,
) -> (result: Result<ExpandedLibrary, PersistenceError>)
    ensures
        expansion_decided(facts, *expansion, proposed@, result),
{
    match check_same_directory(facts.same_before, facts.scanned, facts.same_after) {
        Err(error) => {
            return Err(error);
        },
        Ok(_) => {},
    }
    match check_journal(&facts.journal) {
        Err(error) => {
            return Err(error);
        },
        Ok(_) => {},
    }
    match check_root_unchanged(clone_opt_text(&facts.planned_root), &expansion.stored_root) {
        Err(error) => {
            return Err(error);
        },
        Ok(_) => {},
    }
    if !facts.sound {
        return Err(PersistenceError::Storage);
    }
    let plan: ExpansionPlan = match expansion_plan(
        &facts.rows,
        &facts.photo_rows,
        &expansion.prefix,
    ) {
        Err(error) => {
            return Err(error);
        },
        Ok(plan) => plan,
    };
    if !facts.canonical {
        return Err(PersistenceError::UnsupportedSchema);
    }
    let bound: bool = match &facts.root {
        Some(root) => same_text(root, &expansion.stored_root),
        None => false,
    };
    let now: ExpansionProjection = expansion_projection(&facts.library);
    let kept: bool = same_projection(&now, &facts.preserved);
    proof {
        let originals = originals_view(facts.library.originals@);
        let photos = photos_view(facts.library.photos@);
        if kept {
            assert forall|other: ExpansionProjection|
                projects(other, originals, photos) && other.albums@ == facts.library.albums@
                    && other.members@ == facts.library.members@ && other.progress@
                    == facts.library.progress@ implies #[trigger] projections_agree(
                other,
                facts.preserved,
            ) by {
                lemma_projections_are_one(now, other, facts.preserved, originals, photos);
            }
        }
        assert(unmoved(facts, expansion.stored_root@) == (bound && kept));
    }
    if !bound || !kept {
        return Err(PersistenceError::InvalidExpansion);
    }
    match expand_library(facts.library.originals, facts.library.photos, &plan) {
        Err(error) => Err(error),
        Ok((originals, photos)) => Ok(
            ExpandedLibrary { root: proposed.clone(), originals, photos },
        ),
    }
}

/// A library that was bound to a larger root still has the projection that it was
/// planned on: identities, kinds, observed facts, decisions, Albums, their members
/// and their browsing positions are as they were.
pub proof fn law_bound_libraries_keep_their_projection(
    facts: ExpansionFacts,
    expansion: ProposedExpansion,
    proposed: Seq<char>,
    expanded: ExpandedLibrary,
    after: ExpansionProjection,
)
    requires
        expansion_decided(facts, expansion, proposed, Ok(expanded)),
        projects(after, originals_view(expanded.originals@), photos_view(expanded.photos@)),
        after.albums@ == facts.library.albums@,
        after.members@ == facts.library.members@,
        after.progress@ == facts.library.progress@,
    ensures
        projections_agree(after, facts.preserved),
{
    let before = originals_view(facts.library.originals@);
    let shown = photos_view(facts.library.photos@);
    let result = Ok::<ExpandedLibrary, PersistenceError>(expanded);
    let plan = choose|plan: ExpansionPlan|
        #![trigger plans(plan, facts.rows@, facts.photo_rows@, expansion.prefix@)]
        plans(plan, facts.rows@, facts.photo_rows@, expansion.prefix@) && (match (
            originals_expanded(before, plan.originals@),
            photos_expanded(shown, plan.photo_sort_paths@),
        ) {
            (Err(error), _) => result == Err::<ExpandedLibrary, PersistenceError>(error),
            (Ok(_), None) => result == Err::<ExpandedLibrary, PersistenceError>(
                PersistenceError::InvalidExpansion,
            ),
            (Ok(a), Some(b)) => {
                &&& result is Ok
                &&& result->Ok_0.root@ == proposed
                &&& originals_view(result->Ok_0.originals@) == a
                &&& photos_view(result->Ok_0.photos@) == b
            },
        });
    law_expansion_preserves_originals(before, plan.originals@);
    law_expansion_preserves_photos(shown, plan.photo_sort_paths@);
    let a = originals_expanded(before, plan.originals@)->Ok_0;
    let b = photos_expanded(shown, plan.photo_sort_paths@)->0;
    assert forall|i: int| 0 <= i < before.len() implies tells_original(
        #[trigger] after.originals@[i],
        before[i],
    ) by {
        assert(tells_original(after.originals@[i], a[i]));
        assert(preserved_original(a[i], before[i]));
    }
    assert forall|i: int| 0 <= i < shown.len() implies tells_photo(
        #[trigger] after.photos@[i],
        shown[i],
    ) by {
        assert(tells_photo(after.photos@[i], b[i]));
        assert(preserved_photo(b[i], shown[i]));
    }
    assert(projects(after, before, shown));
}

/// A Library is bound to another root only where the stored root and the proposed one
/// were the same directory before and after it was scanned, the database journals by
/// deletion, it is sound, canonical and bound as planned, and nothing in it moved
/// meanwhile. It is then bound to the proposed root, with as many Original Files and
/// Photos as before.
pub proof fn law_libraries_are_bound_where_nothing_moved(
    facts: ExpansionFacts,
    expansion: ProposedExpansion,
    proposed: Seq<char>,
    expanded: ExpandedLibrary,
)
    requires
        expansion_decided(facts, expansion, proposed, Ok(expanded)),
    ensures
        facts.same_before == Some(true),
        facts.scanned,
        facts.same_after == Some(true),
        facts.journal@.len() == 6,
        facts.planned_root is Some,
        facts.planned_root->0@ == expansion.stored_root@,
        facts.sound,
        facts.canonical,
        facts.root is Some,
        facts.root->0@ == expansion.stored_root@,
        plannable(facts.rows@, facts.photo_rows@, expansion.prefix@),
        expanded.root@ == proposed,
        expanded.originals.len() == facts.library.originals.len(),
        expanded.photos.len() == facts.library.photos.len(),
{
    reveal_strlit("delete");
    assert(folded("delete"@).len() == 6);
    assert(folded(facts.journal@).len() == facts.journal@.len());
    let before = originals_view(facts.library.originals@);
    let shown = photos_view(facts.library.photos@);
    let plan = choose|plan: ExpansionPlan|
        #![trigger plans(plan, facts.rows@, facts.photo_rows@, expansion.prefix@)]
        plans(plan, facts.rows@, facts.photo_rows@, expansion.prefix@) && originals_expanded(
            before,
            plan.originals@,
        ) == Ok::<Seq<OriginalView>, PersistenceError>(originals_view(expanded.originals@))
            && photos_expanded(shown, plan.photo_sort_paths@) == Some(
            photos_view(expanded.photos@),
        );
    law_expansion_preserves_originals(before, plan.originals@);
    law_expansion_preserves_photos(shown, plan.photo_sort_paths@);
    assert(originals_view(expanded.originals@).len() == expanded.originals.len());
    assert(photos_view(expanded.photos@).len() == expanded.photos.len());
}

/// Binding a Library to another root puts the way down to the stored root before the
/// Location of every Original File, keeps everything else that is stored of the file,
/// and has its capture facts read anew.
pub proof fn law_bound_originals_stand_behind_the_prefix(
    facts: ExpansionFacts,
    expansion: ProposedExpansion,
    proposed: Seq<char>,
    expanded: ExpandedLibrary,
    r: int,
    i: int,
)
    requires
        expansion_decided(facts, expansion, proposed, Ok(expanded)),
        0 <= r < facts.rows.len(),
        0 <= i < facts.library.originals.len(),
        facts.rows@[r].id@ == facts.library.originals@[i].id@,
        forall|a: int, b: int|
            0 <= a < b < facts.rows.len() ==> (#[trigger] facts.rows@[a]).id@ != (
            #[trigger] facts.rows@[b]).id@,
        forall|a: int, b: int|
            0 <= a < b < facts.library.originals.len() ==> (
            #[trigger] facts.library.originals@[a]).id@ != (
            #[trigger] facts.library.originals@[b]).id@,
    ensures
        ({
            let before = facts.library.originals@[i];
            let after = expanded.originals@[i];
            &&& facts.rows@[r].location is Some
            &&& before.relative_path@ == facts.rows@[r].relative_path@
            &&& after.relative_path@ == expansion.prefix@ + seq!['/']
                + facts.rows@[r].location->0@
            &&& after.id@ == before.id@
            &&& after.kind == before.kind
            &&& after.size == before.size
            &&& after.mtime_ms == before.mtime_ms
            &&& after.available == before.available
            &&& after.error_category == before.error_category
            &&& after.capture.state == CaptureMetadataState::Pending
            &&& after.capture.order_key is None
        }),
{
    let before = originals_view(facts.library.originals@);
    let plan = choose|plan: ExpansionPlan|
        #![trigger plans(plan, facts.rows@, facts.photo_rows@, expansion.prefix@)]
        plans(plan, facts.rows@, facts.photo_rows@, expansion.prefix@) && originals_expanded(
            before,
            plan.originals@,
        ) == Ok::<Seq<OriginalView>, PersistenceError>(originals_view(expanded.originals@));
    let changes = plan.originals@;
    reveal_strlit("/");
    assert("/"@ =~= seq!['/']);
    assert(changes[r].id@ == facts.rows@[r].id@);
    assert(expandable(facts.rows@[r]));
    assert forall|a: int, b: int| 0 <= a < b < changes.len() implies (#[trigger] changes[a]).id@
        != (#[trigger] changes[b]).id@ by {
        assert(changes[a].id@ == facts.rows@[a].id@);
        assert(changes[b].id@ == facts.rows@[b].id@);
    }
    law_planned_originals_move(facts.library.originals@, changes, expanded.originals@, r, i);
}

/// Binding a Library to another root has the Preview of every Photo inspected anew, and
/// keeps what was decided about it.
pub proof fn law_bound_photos_are_inspected_anew(
    facts: ExpansionFacts,
    expansion: ProposedExpansion,
    proposed: Seq<char>,
    expanded: ExpandedLibrary,
    r: int,
    i: int,
)
    requires
        expansion_decided(facts, expansion, proposed, Ok(expanded)),
        0 <= r < facts.photo_rows.len(),
        0 <= i < facts.library.photos.len(),
        facts.photo_rows@[r].id@ == facts.library.photos@[i].id@,
        forall|a: int, b: int|
            0 <= a < b < facts.photo_rows.len() ==> (#[trigger] facts.photo_rows@[a]).id@ != (
            #[trigger] facts.photo_rows@[b]).id@,
        forall|a: int, b: int|
            0 <= a < b < facts.library.photos.len() ==> (
            #[trigger] facts.library.photos@[a]).id@ != (
            #[trigger] facts.library.photos@[b]).id@,
    ensures
        ({
            let before = facts.library.photos@[i];
            let after = expanded.photos@[i];
            &&& after.id@ == before.id@
            &&& after.original_id@ == before.original_id@
            &&& after.preview_state == PreviewState::InspectionPending
            &&& after.preview_source_revision is None
            &&& after.preview_width is None
            &&& after.preview_height is None
            &&& after.cache_revision is None
            &&& after.available == before.available
            &&& after.selection_state == before.selection_state
            &&& after.rating == before.rating
            &&& after.removed == before.removed
        }),
{
    let shown = photos_view(facts.library.photos@);
    let plan = choose|plan: ExpansionPlan|
        #![trigger plans(plan, facts.rows@, facts.photo_rows@, expansion.prefix@)]
        plans(plan, facts.rows@, facts.photo_rows@, expansion.prefix@) && photos_expanded(
            shown,
            plan.photo_sort_paths@,
        ) == Some(photos_view(expanded.photos@));
    let changes = plan.photo_sort_paths@;
    assert(changes[r].id@ == facts.photo_rows@[r].id@);
    assert forall|a: int, b: int| 0 <= a < b < changes.len() implies (#[trigger] changes[a]).id@
        != (#[trigger] changes[b]).id@ by {
        assert(changes[a].id@ == facts.photo_rows@[a].id@);
        assert(changes[b].id@ == facts.photo_rows@[b].id@);
    }
    law_planned_photos_are_inspected_anew(
        facts.library.photos@,
        changes,
        expanded.photos@,
        r,
        i,
    );
}

/// A Library is refused another root as a whole: where the directories are not the same
/// or were not scanned, where the journal is another one, where the root is another one
/// by now, where the database is not sound.
pub proof fn law_unfit_libraries_are_not_bound(
    facts: ExpansionFacts,
    expansion: ProposedExpansion,
    proposed: Seq<char>,
    result: Result<ExpandedLibrary, PersistenceError>,
)
    requires
        expansion_decided(facts, expansion, proposed, result),
    ensures
        facts.same_before != Some(true) || !facts.scanned || facts.same_after != Some(true)
            ==> result == Err::<ExpandedLibrary, PersistenceError>(
            PersistenceError::InvalidExpansion,
        ),
        facts.same_before == Some(true) && facts.scanned && facts.same_after == Some(true)
            && facts.journal@ == "delete"@ ==> {
            &&& facts.planned_root is None ==> result == Err::<ExpandedLibrary, PersistenceError>(
                PersistenceError::InvalidExpansion,
            )
            &&& facts.planned_root is Some && facts.planned_root->0@ != expansion.stored_root@
                ==> result == Err::<ExpandedLibrary, PersistenceError>(
                PersistenceError::RootMismatch,
            )
            &&& facts.planned_root is Some && facts.planned_root->0@ == expansion.stored_root@
                && !facts.sound ==> result == Err::<ExpandedLibrary, PersistenceError>(
                PersistenceError::Storage,
            )
        },
{
}

/// What a binding must keep is told field by field, and two such tellings agree only
/// where every field does.
pub proof fn law_projections_agree_field_by_field(
    a: ExpansionProjection,
    b: ExpansionProjection,
    i: int,
)
    requires
        projections_agree(a, b),
    ensures
        a.originals.len() == b.originals.len(),
        a.photos.len() == b.photos.len(),
        a.albums.len() == b.albums.len(),
        a.members.len() == b.members.len(),
        a.progress.len() == b.progress.len(),
        0 <= i < a.originals.len() ==> a.originals@[i].id@ == b.originals@[i].id@
            && a.originals@[i].kind == b.originals@[i].kind && a.originals@[i].size
            == b.originals@[i].size && a.originals@[i].available == b.originals@[i].available
            && a.originals@[i].error_category == b.originals@[i].error_category && opt_text(
            a.originals@[i].error_message,
        ) == opt_text(b.originals@[i].error_message) && same_real(
            a.originals@[i].mtime_ms,
            b.originals@[i].mtime_ms,
        ),
        0 <= i < a.photos.len() ==> a.photos@[i].id@ == b.photos@[i].id@
            && a.photos@[i].original_id@ == b.photos@[i].original_id@ && a.photos@[i].available
            == b.photos@[i].available && a.photos@[i].selection_state
            == b.photos@[i].selection_state && a.photos@[i].rating == b.photos@[i].rating,
        0 <= i < a.albums.len() ==> a.albums@[i].id@ == b.albums@[i].id@ && a.albums@[i].name@
            == b.albums@[i].name@ && a.albums@[i].created_at == b.albums@[i].created_at,
        0 <= i < a.members.len() ==> a.members@[i].album_id@ == b.members@[i].album_id@
            && a.members@[i].photo_id@ == b.members@[i].photo_id@ && a.members@[i].position
            == b.members@[i].position,
        0 <= i < a.progress.len() ==> a.progress@[i].album_id@ == b.progress@[i].album_id@
            && a.progress@[i].photo_id@ == b.progress@[i].photo_id@,
{
    if 0 <= i < a.originals.len() {
        assert(same_kept_original(a.originals@[i], b.originals@[i]));
    }
    if 0 <= i < a.photos.len() {
        assert(same_kept_photo(a.photos@[i], b.photos@[i]));
    }
    if 0 <= i < a.albums.len() {
        assert(same_album_entry(a.albums@[i], b.albums@[i]));
    }
    if 0 <= i < a.members.len() {
        assert(same_member_entry(a.members@[i], b.members@[i]));
    }
    if 0 <= i < a.progress.len() {
        assert(same_progress_entry(a.progress@[i], b.progress@[i]));
    }
}

} // verus!
