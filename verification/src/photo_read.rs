//! What is told of a Photo, of the Albums it is in, and of the Photos of an
//! Album.
use crate::album_order::{
    creation_order, law_older_albums_come_first, order_by_creation, order_states,
    states_by_creation, AlbumAge,
};
use crate::album_state::{AlbumState, Member};
use crate::codec::{
    capture_fact_valid, capture_of, kind_of, law_capture_facts_are_whole,
    law_kinds_are_stored_by_name, law_selections_are_stored_by_name, law_states_are_stored_by_name,
    parse_capture_fact, parse_dimension, parse_kind, parse_preview_state, parse_selection_state,
    preview_of, selection_of, source_of_kind, time_field_of, CaptureFact, CaptureMetadataState,
    OriginalKind, PreviewSource, PreviewState, SelectionState,
};
use crate::error::PersistenceError;
use crate::path::{file_name, law_last_parts_follow_the_last_slash, parts};
use crate::query::{PhotoQueryCandidate, PhotoQueryProjection};
use crate::scan_state::clone_capture;
use crate::snapshot::{dimension_of, dimension_readable};
use crate::sorting::{
    key_less, keys_view, law_sorting_orders_every_row, rows_view, sort_order, sorted_rows, KeyView,
    SortKey,
};
use crate::text::{clone_opt_text, opt_text, same_text, texts};
use crate::versions::MutationVersions;
use vstd::prelude::*;
use vstd::string::*;

verus! {

/// What is told of a Photo.
#[derive(Clone, Debug, PartialEq, Eq)]
pub struct PhotoRead {
    pub id: String,
    pub filename: String,
    pub original_kind: OriginalKind,
    pub original_available: bool,
    pub selection_state: SelectionState,
    pub rating: u8,
    pub decision_version: String,
    pub capture: CaptureFact,
    pub preview_state: PreviewState,
    pub preview_source: Option<PreviewSource>,
    pub preview_source_revision: Option<String>,
    pub preview_width: Option<u32>,
    pub preview_height: Option<u32>,
    pub has_saved_edits: bool,
}

/// The columns of a Photo and its Original File.
#[derive(Clone, Debug, PartialEq, Eq)]
pub struct StoredPhotoRead {
    pub id: String,
    pub relative_path: String,
    pub kind: String,
    pub original_available: i64,
    pub selection_state: String,
    pub rating: i64,
    pub capture_state: String,
    pub capture_order_key: Option<String>,
    pub capture_field: Option<String>,
    pub capture_offset_minutes: Option<i64>,
    pub capture_source_revision: Option<String>,
    pub preview_state: String,
    pub preview_source_revision: Option<String>,
    pub preview_width: Option<i64>,
    pub preview_height: Option<i64>,
    pub saved_edits: i64,
}

/// The capture fact that the columns tell.
pub open spec fn read_capture(row: StoredPhotoRead) -> CaptureFact {
    CaptureFact {
        state: capture_of(row.capture_state@)->0,
        order_key: row.capture_order_key,
        field: match row.capture_field {
            Some(name) => time_field_of(name@),
            None => None,
        },
        offset_minutes: match row.capture_offset_minutes {
            Some(n) => Some(n as i32),
            None => None,
        },
        source_revision: row.capture_source_revision,
    }
}

/// Whether the columns can be read.
pub open spec fn readable(row: StoredPhotoRead) -> bool {
    &&& kind_of(row.kind@) is Some
    &&& preview_of(row.preview_state@) is Some
    &&& dimension_readable(row.preview_width)
    &&& dimension_readable(row.preview_height)
    &&& selection_of(row.selection_state@) is Some
    &&& 0 <= row.rating <= u8::MAX
    &&& capture_of(row.capture_state@) is Some
    &&& row.capture_field is Some ==> time_field_of(row.capture_field->0@) is Some
    &&& row.capture_offset_minutes is Some ==> i32::MIN <= row.capture_offset_minutes->0
        <= i32::MAX
    &&& capture_fact_valid(read_capture(row))
}

/// Whether a Photo is told as its columns say, with a version. What is known of a
/// Preview is told only once it is ready.
pub open spec fn tells_photo(read: PhotoRead, row: StoredPhotoRead, version: Seq<char>) -> bool {
    let ready = preview_of(row.preview_state@) == Some(PreviewState::Ready);
    &&& read.id == row.id
    &&& read.filename@ == parts(row.relative_path@).last()
    &&& read.original_kind == kind_of(row.kind@)->0
    &&& read.original_available == (row.original_available != 0)
    &&& read.selection_state == selection_of(row.selection_state@)->0
    &&& read.rating == row.rating
    &&& read.decision_version@ == version
    &&& read.capture == read_capture(row)
    &&& read.preview_state == preview_of(row.preview_state@)->0
    &&& read.preview_source == if ready {
        Some(source_of_kind(kind_of(row.kind@)->0))
    } else {
        None
    }
    &&& read.preview_source_revision == if ready {
        row.preview_source_revision
    } else {
        None
    }
    &&& read.preview_width == if ready {
        dimension_of(row.preview_width)
    } else {
        None
    }
    &&& read.preview_height == if ready {
        dimension_of(row.preview_height)
    } else {
        None
    }
    &&& read.has_saved_edits == (row.saved_edits != 0)
}

/// Tells a Photo: none if there is no such Photo.
pub fn read_photo(versions: &MutationVersions, row: &Option<StoredPhotoRead>) -> (read: Result<
    Option<PhotoRead>,
    PersistenceError,
>)
    ensures
        match *row {
            None => read == Ok::<Option<PhotoRead>, PersistenceError>(None),
            Some(stored) => if readable(stored) {
                read is Ok && read->Ok_0 is Some && tells_photo(
                    read->Ok_0->0,
                    stored,
                    versions.photo_token(stored.id@),
                )
            } else {
                read == Err::<Option<PhotoRead>, PersistenceError>(PersistenceError::Storage)
            },
        },
{
    let row: &StoredPhotoRead = match row {
        Some(row) => row,
        None => {
            return Ok(None);
        },
    };
    let kind: OriginalKind = match parse_kind(&row.kind) {
        Some(kind) => kind,
        None => {
            return Err(PersistenceError::Storage);
        },
    };
    let preview_state: PreviewState = match parse_preview_state(&row.preview_state) {
        Some(state) => state,
        None => {
            return Err(PersistenceError::Storage);
        },
    };
    let (width, height): (Option<u32>, Option<u32>) = match (
        parse_dimension(row.preview_width),
        parse_dimension(row.preview_height),
    ) {
        (Some(width), Some(height)) => (width, height),
        _ => {
            return Err(PersistenceError::Storage);
        },
    };
    let selection_state: SelectionState = match parse_selection_state(&row.selection_state) {
        Some(state) => state,
        None => {
            return Err(PersistenceError::Storage);
        },
    };
    if row.rating < 0 || row.rating > u8::MAX as i64 {
        return Err(PersistenceError::Storage);
    }
    let capture: CaptureFact = match parse_capture_fact(
        &row.capture_state,
        clone_opt_text(&row.capture_order_key),
        &row.capture_field,
        row.capture_offset_minutes,
        clone_opt_text(&row.capture_source_revision),
    ) {
        Some(capture) => capture,
        None => {
            return Err(PersistenceError::Storage);
        },
    };
    let ready: bool = preview_state == PreviewState::Ready;
    Ok(
        Some(
            PhotoRead {
                id: row.id.clone(),
                filename: file_name(&row.relative_path),
                original_kind: kind,
                original_available: row.original_available != 0,
                selection_state,
                rating: row.rating as u8,
                decision_version: versions.photo(row.id.as_str()),
                capture,
                preview_state,
                preview_source: if ready {
                    Some(kind.preview_source())
                } else {
                    None
                },
                preview_source_revision: if ready {
                    clone_opt_text(&row.preview_source_revision)
                } else {
                    None
                },
                preview_width: if ready {
                    width
                } else {
                    None
                },
                preview_height: if ready {
                    height
                } else {
                    None
                },
                has_saved_edits: row.saved_edits != 0,
            },
        ),
    )
}

/// The columns of the decisions about a Photo.
#[derive(Clone, Debug, PartialEq, Eq)]
pub struct StoredDecisions {
    pub selection_state: String,
    pub rating: i64,
    pub saved_edits: bool,
}

/// Whether a Photo is told as a scan published it, with its decisions and a
/// version.
pub open spec fn tells_candidate(
    read: PhotoRead,
    candidate: PhotoQueryCandidate,
    decisions: StoredDecisions,
    version: Seq<char>,
) -> bool {
    let ready = candidate.preview_state == PreviewState::Ready;
    &&& read.id == candidate.photo_id
    &&& read.filename@ == parts(candidate.relative_path@).last()
    &&& read.original_kind == candidate.original_kind
    &&& read.original_available == candidate.original_available
    &&& read.selection_state == selection_of(decisions.selection_state@)->0
    &&& read.rating == decisions.rating
    &&& read.decision_version@ == version
    &&& read.capture == candidate.capture
    &&& read.preview_state == candidate.preview_state
    &&& read.preview_source == if ready {
        Some(source_of_kind(candidate.original_kind))
    } else {
        None
    }
    &&& read.preview_source_revision == if ready {
        candidate.preview_source_revision
    } else {
        None
    }
    &&& read.preview_width == if ready {
        candidate.preview_width
    } else {
        None
    }
    &&& read.preview_height == if ready {
        candidate.preview_height
    } else {
        None
    }
    &&& read.has_saved_edits == decisions.saved_edits
}

/// Whether a published Photo has stored decisions that cannot be read.
pub open spec fn unreadable_decisions(
    projection: PhotoQueryProjection,
    decisions: Option<StoredDecisions>,
    photo_id: Seq<char>,
) -> bool {
    projection.index@.contains_key(photo_id) && (decisions matches Some(stored) && (selection_of(
        stored.selection_state@,
    ) is None || !(0 <= stored.rating <= u8::MAX)))
}

/// Whether a published Photo is told with the decisions that are stored now, or as
/// none if it was not published, or is stored no more.
pub open spec fn tells_projected(
    read: Option<PhotoRead>,
    versions: MutationVersions,
    projection: PhotoQueryProjection,
    decisions: Option<StoredDecisions>,
    photo_id: Seq<char>,
) -> bool {
    if !projection.index@.contains_key(photo_id) || decisions is None {
        read is None
    } else {
        read is Some && tells_candidate(
            read->0,
            projection.candidates@[projection.index@[photo_id] as int],
            decisions->0,
            versions.photo_token(photo_id),
        )
    }
}

/// Tells a Photo as a scan published it, with the decisions that are stored now:
/// none if it was not published, or is stored no more.
pub fn read_projected_photo(
    versions: &MutationVersions,
    projection: &PhotoQueryProjection,
    decisions: &Option<StoredDecisions>,
    photo_id: &String,
) -> (read: Result<Option<PhotoRead>, PersistenceError>)
    requires
        projection.wf(),
    ensures
        if unreadable_decisions(*projection, *decisions, photo_id@) {
            read == Err::<Option<PhotoRead>, PersistenceError>(PersistenceError::Storage)
        } else {
            read is Ok && tells_projected(
                read->Ok_0,
                *versions,
                *projection,
                *decisions,
                photo_id@,
            )
        },
{
    let candidate: &PhotoQueryCandidate = match projection.get(photo_id) {
        Some(candidate) => candidate,
        None => {
            return Ok(None);
        },
    };
    let stored: &StoredDecisions = match decisions {
        Some(stored) => stored,
        None => {
            return Ok(None);
        },
    };
    let selection_state: SelectionState = match parse_selection_state(&stored.selection_state) {
        Some(state) => state,
        None => {
            return Err(PersistenceError::Storage);
        },
    };
    if stored.rating < 0 || stored.rating > u8::MAX as i64 {
        return Err(PersistenceError::Storage);
    }
    let ready: bool = candidate.preview_state == PreviewState::Ready;
    Ok(
        Some(
            PhotoRead {
                id: candidate.photo_id.clone(),
                filename: file_name(&candidate.relative_path),
                original_kind: candidate.original_kind,
                original_available: candidate.original_available,
                selection_state,
                rating: stored.rating as u8,
                decision_version: versions.photo(photo_id.as_str()),
                capture: clone_capture(&candidate.capture),
                preview_state: candidate.preview_state,
                preview_source: if ready {
                    Some(candidate.original_kind.preview_source())
                } else {
                    None
                },
                preview_source_revision: if ready {
                    clone_opt_text(&candidate.preview_source_revision)
                } else {
                    None
                },
                preview_width: if ready {
                    candidate.preview_width
                } else {
                    None
                },
                preview_height: if ready {
                    candidate.preview_height
                } else {
                    None
                },
                has_saved_edits: stored.saved_edits,
            },
        ),
    )
}

/// Tells published Photos, in the order in which they are asked for. `decisions`
/// are those that are stored for each of them. One that cannot be read refuses the
/// whole request.
pub fn read_photos(
    versions: &MutationVersions,
    projection: &PhotoQueryProjection,
    decisions: &Vec<Option<StoredDecisions>>,
    photo_ids: &Vec<String>,
) -> (reads: Result<Vec<Option<PhotoRead>>, PersistenceError>)
    requires
        projection.wf(),
        decisions.len() == photo_ids.len(),
    ensures
        if exists|i: int|
            0 <= i < photo_ids.len() && unreadable_decisions(
                *projection,
                decisions@[i],
                (#[trigger] photo_ids@[i])@,
            ) {
            reads == Err::<Vec<Option<PhotoRead>>, PersistenceError>(PersistenceError::Storage)
        } else {
            reads is Ok && reads->Ok_0.len() == photo_ids.len() && forall|i: int|
                0 <= i < photo_ids.len() ==> tells_projected(
                    #[trigger] reads->Ok_0@[i],
                    *versions,
                    *projection,
                    decisions@[i],
                    photo_ids@[i]@,
                )
        },
{
    let mut reads: Vec<Option<PhotoRead>> = Vec::new();
    let mut i: usize = 0;
    while i < photo_ids.len()
        invariant
            i <= photo_ids.len(),
            projection.wf(),
            decisions.len() == photo_ids.len(),
            reads.len() == i,
            forall|j: int|
                0 <= j < i ==> !unreadable_decisions(
                    *projection,
                    decisions@[j],
                    (#[trigger] photo_ids@[j])@,
                ),
            forall|j: int|
                0 <= j < i ==> tells_projected(
                    #[trigger] reads@[j],
                    *versions,
                    *projection,
                    decisions@[j],
                    photo_ids@[j]@,
                ),
        decreases photo_ids.len() - i,
    {
        match read_projected_photo(versions, projection, &decisions[i], &photo_ids[i]) {
            Ok(read) => {
                reads.push(read);
            },
            Err(error) => {
                assert(unreadable_decisions(*projection, decisions@[i as int], photo_ids@[i as int]@));
                return Err(error);
            },
        }
        i = i + 1;
    }
    Ok(reads)
}

/// An Album that a Photo is in.
#[derive(Clone, Debug, PartialEq, Eq)]
pub struct PhotoAlbumMembership {
    pub album_id: String,
    pub album_name: String,
}

/// What [`PhotoAlbumMembership`] stands for.
pub struct MembershipView {
    pub album_id: Seq<char>,
    pub album_name: Seq<char>,
}

impl View for PhotoAlbumMembership {
    type V = MembershipView;

    open spec fn view(&self) -> MembershipView {
        MembershipView { album_id: self.album_id@, album_name: self.album_name@ }
    }
}

/// What a list of memberships stands for.
pub open spec fn memberships_view(list: Seq<PhotoAlbumMembership>) -> Seq<MembershipView> {
    Seq::new(list.len(), |i: int| list[i]@)
}

/// Whether an Album holds a Photo.
pub open spec fn holds_photo(album: AlbumState, photo_id: Seq<char>) -> bool {
    exists|i: int|
        0 <= i < album.members@.len() && (#[trigger] album.members@[i]).photo_id@ == photo_id
}

/// The Albums that a Photo is in, in the order of the Albums.
pub open spec fn albums_of(albums: Seq<AlbumState>, photo_id: Seq<char>) -> Seq<MembershipView>
    decreases albums.len(),
{
    if albums.len() == 0 {
        Seq::empty()
    } else {
        let before = albums_of(albums.drop_last(), photo_id);
        if holds_photo(albums.last(), photo_id) {
            before.push(
                MembershipView { album_id: albums.last().id@, album_name: albums.last().name@ },
            )
        } else {
            before
        }
    }
}

fn does_hold(album: &AlbumState, photo_id: &String) -> (answer: bool)
    ensures
        answer == holds_photo(*album, photo_id@),
{
    let mut i: usize = 0;
    while i < album.members.len()
        invariant
            i <= album.members.len(),
            forall|j: int| 0 <= j < i ==> (#[trigger] album.members@[j]).photo_id@ != photo_id@,
        decreases album.members.len() - i,
    {
        if same_text(&album.members[i].photo_id, photo_id) {
            assert(album.members@[i as int].photo_id@ == photo_id@);
            return true;
        }
        i = i + 1;
    }
    false
}

/// Tells the Albums that a Photo is in, the oldest one first: none if there is no such
/// Photo.
pub fn photo_albums(known: bool, albums: &Vec<AlbumState>, photo_id: &String) -> (list: Option<
    Vec<PhotoAlbumMembership>,
>)
    ensures
        list is Some == known,
        known ==> memberships_view(list->0@) == albums_of(
            states_by_creation(albums@),
            photo_id@,
        ),
{
    if !known {
        return None;
    }
    let order: Vec<usize> = order_states(albums);
    let ghost sorted = states_by_creation(albums@);
    let mut list: Vec<PhotoAlbumMembership> = Vec::new();
    let mut i: usize = 0;
    assert(sorted.take(0) =~= Seq::<AlbumState>::empty());
    assert(memberships_view(list@) =~= Seq::<MembershipView>::empty());
    while i < order.len()
        invariant
            i <= order.len(),
            order.len() == albums.len(),
            sorted == states_by_creation(albums@),
            forall|j: int|
                0 <= j < order.len() ==> (#[trigger] order@[j]) < albums.len() && albums@[order@[j] as int]
                    == sorted[j],
            memberships_view(list@) == albums_of(sorted.take(i as int), photo_id@),
        decreases order.len() - i,
    {
        let album: &AlbumState = &albums[order[i]];
        proof {
            assert(sorted.take(i + 1).drop_last() =~= sorted.take(i as int));
            assert(sorted.take(i + 1).last() == *album);
        }
        if does_hold(album, photo_id) {
            let membership: PhotoAlbumMembership = PhotoAlbumMembership {
                album_id: album.id.clone(),
                album_name: album.name.clone(),
            };
            assert(memberships_view(list@.push(membership)) =~= memberships_view(list@).push(
                membership@,
            ));
            list.push(membership);
        }
        i = i + 1;
    }
    assert(sorted.take(order@.len() as int) =~= sorted);
    Some(list)
}

/// A Photo of an Album that can be browsed.
#[derive(Clone, Debug, PartialEq, Eq)]
pub struct AlbumBrowseMember {
    pub photo_id: String,
    pub available: bool,
}

/// The Photos of an Album that can be browsed, and where browsing was left.
#[derive(Clone, Debug, PartialEq, Eq)]
pub struct AlbumBrowseTarget {
    pub members: Vec<AlbumBrowseMember>,
    pub saved_photo_id: Option<String>,
}

/// The members of an Album that are shown, in order.
pub open spec fn shown_members(members: Seq<Member>) -> Seq<Seq<char>>
    decreases members.len(),
{
    if members.len() == 0 {
        Seq::empty()
    } else {
        let before = shown_members(members.drop_last());
        if members.last().removed {
            before
        } else {
            before.push(members.last().photo_id@)
        }
    }
}

/// The Photos of a list of members that can be browsed.
pub open spec fn browse_ids(members: Seq<AlbumBrowseMember>) -> Seq<Seq<char>> {
    Seq::new(members.len(), |i: int| members[i].photo_id@)
}

/// Tells what can be browsed of an Album: none if there is no such Album. A Photo
/// that was removed is not shown. `available` are the Photos whose Original Files
/// can be read.
pub fn album_browse_target(album: &Option<AlbumState>, available: &Vec<String>) -> (target: Option<
    AlbumBrowseTarget,
>)
    ensures
        match *album {
            None => target is None,
            Some(state) => {
                &&& target is Some
                &&& browse_ids(target->0.members@) == shown_members(state.members@)
                &&& forall|i: int|
                    0 <= i < target->0.members@.len() ==> (
                    #[trigger] target->0.members@[i]).available == texts(available@).contains(
                        target->0.members@[i].photo_id@,
                    )
                &&& target->0.saved_photo_id == state.saved_photo_id
            },
        },
{
    let state: &AlbumState = match album {
        Some(state) => state,
        None => {
            return None;
        },
    };
    let mut members: Vec<AlbumBrowseMember> = Vec::new();
    let mut i: usize = 0;
    assert(state.members@.take(0) =~= Seq::<Member>::empty());
    assert(browse_ids(members@) =~= Seq::<Seq<char>>::empty());
    while i < state.members.len()
        invariant
            i <= state.members.len(),
            browse_ids(members@) == shown_members(state.members@.take(i as int)),
            forall|j: int|
                0 <= j < members@.len() ==> (#[trigger] members@[j]).available == texts(
                    available@,
                ).contains(members@[j].photo_id@),
        decreases state.members.len() - i,
    {
        proof {
            assert(state.members@.take(i + 1).drop_last() =~= state.members@.take(i as int));
            assert(state.members@.take(i + 1).last() == state.members@[i as int]);
        }
        if !state.members[i].removed {
            let member: AlbumBrowseMember = AlbumBrowseMember {
                photo_id: state.members[i].photo_id.clone(),
                available: crate::text::contains_text(available, &state.members[i].photo_id),
            };
            assert(browse_ids(members@.push(member)) =~= browse_ids(members@).push(
                member.photo_id@,
            ));
            members.push(member);
        }
        i = i + 1;
    }
    assert(state.members@.take(state.members@.len() as int) =~= state.members@);
    Some(
        AlbumBrowseTarget { members, saved_photo_id: clone_opt_text(&state.saved_photo_id) },
    )
}

/// The columns of a member of an Album and its Photo.
#[derive(Clone, Debug, PartialEq, Eq)]
pub struct StoredAlbumMember {
    pub photo_id: String,
    pub position: i64,
    pub available: i64,
    pub selection_state: String,
    pub rating: i64,
    pub removed: bool,
}

/// A Photo of an Album with its place and the decisions about it.
#[derive(Clone, Debug, PartialEq, Eq)]
pub struct AlbumMember {
    pub photo_id: String,
    pub position: u64,
    pub available: bool,
    pub selection_state: SelectionState,
    pub rating: u8,
}

/// Whether a member of an Album can be read.
pub open spec fn member_readable(row: StoredAlbumMember) -> bool {
    row.position >= 0 && selection_of(row.selection_state@) is Some && 0 <= row.rating <= u8::MAX
}

/// The member that the columns tell.
pub open spec fn member_told(row: StoredAlbumMember) -> AlbumMember {
    AlbumMember {
        photo_id: row.photo_id,
        position: row.position as u64,
        available: row.available != 0,
        selection_state: selection_of(row.selection_state@)->0,
        rating: row.rating as u8,
    }
}

/// The members that are shown.
pub open spec fn members_told(rows: Seq<StoredAlbumMember>) -> Seq<AlbumMember>
    decreases rows.len(),
{
    if rows.len() == 0 {
        Seq::empty()
    } else if rows.last().removed {
        members_told(rows.drop_last())
    } else {
        members_told(rows.drop_last()).push(member_told(rows.last()))
    }
}

/// Whether the members of an Album that are shown can all be read.
pub open spec fn members_readable(rows: Seq<StoredAlbumMember>) -> bool {
    forall|i: int|
        0 <= i < rows.len() ==> (#[trigger] rows[i]).removed || member_readable(rows[i])
}

/// What the members of an Album are ordered by: their positions.
pub open spec fn place_keys(rows: Seq<StoredAlbumMember>) -> Seq<KeyView> {
    Seq::new(
        rows.len(),
        |i: int| KeyView { rank: (rows[i].position - i64::MIN) as u64, texts: Seq::empty() },
    )
}

/// The members of an Album by their positions.
pub open spec fn placed(rows: Seq<StoredAlbumMember>) -> Seq<StoredAlbumMember> {
    Seq::new(rows.len(), |i: int| rows[sort_order(place_keys(rows), rows.len())[i]])
}

fn order_places(rows: &Vec<StoredAlbumMember>) -> (order: Vec<usize>)
    ensures
        order.len() == rows.len(),
        forall|i: int|
            0 <= i < order.len() ==> (#[trigger] order@[i]) < rows.len() && rows@[order@[i] as int]
                == placed(rows@)[i],
{
    let ghost all = place_keys(rows@);
    let mut keys: Vec<SortKey> = Vec::new();
    let mut i: usize = 0;
    while i < rows.len()
        invariant
            i <= rows.len(),
            all == place_keys(rows@),
            keys_view(keys@) == all.take(i as int),
        decreases rows.len() - i,
    {
        let rank: u64 = (rows[i].position as i128 - i64::MIN as i128) as u64;
        let key: SortKey = SortKey { rank, texts: Vec::new() };
        proof {
            assert(key@.texts =~= all[i as int].texts);
            assert(keys_view(keys@.push(key)) =~= keys_view(keys@).push(key@));
            assert(all.take(i + 1) =~= all.take(i as int).push(all[i as int]));
        }
        keys.push(key);
        i = i + 1;
    }
    assert(all.take(all.len() as int) =~= all);
    assert(keys.len() == keys_view(keys@).len());
    let order: Vec<usize> = sorted_rows(&keys);
    assert forall|k: int| 0 <= k < order.len() implies (#[trigger] order@[k]) < rows.len()
        && rows@[order@[k] as int] == placed(rows@)[k] by {
        assert(rows_view(order@)[k] == order@[k]);
    }
    order
}

/// The members of an Album are told once each, and ascend by position.
pub proof fn law_members_are_told_by_position(rows: Seq<StoredAlbumMember>)
    ensures
        placed(rows).len() == rows.len(),
        forall|i: int| 0 <= i < rows.len() ==> #[trigger] placed(rows).contains(rows[i]),
        forall|i: int| 0 <= i < rows.len() ==> rows.contains(#[trigger] placed(rows)[i]),
        forall|i: int, j: int|
            0 <= i < j < rows.len() ==> (#[trigger] placed(rows)[i]).position <= (
            #[trigger] placed(rows)[j]).position,
{
    let keys = place_keys(rows);
    let order = sort_order(keys, rows.len());
    let sorted = placed(rows);
    law_sorting_orders_every_row(keys, rows.len());
    assert forall|i: int| 0 <= i < rows.len() implies #[trigger] sorted.contains(rows[i]) by {
        assert(order.contains(i));
        let k = choose|k: int| 0 <= k < order.len() && order[k] == i;
        assert(sorted[k] == rows[i]);
    }
    assert forall|i: int| 0 <= i < rows.len() implies rows.contains(#[trigger] sorted[i]) by {
        assert(0 <= order[i] < rows.len());
        assert(rows[order[i]] == sorted[i]);
    }
    assert forall|i: int, j: int| 0 <= i < j < rows.len() implies (#[trigger] sorted[i]).position
        <= (#[trigger] sorted[j]).position by {
        assert(0 <= order[i] < rows.len() && 0 <= order[j] < rows.len());
        assert(!key_less(keys[order[j]], keys[order[i]]));
    }
}

/// Tells the members of an Album, by position: a Photo that was removed is left
/// out, and one that cannot be read is a failure of storage.
fn read_members(rows: &Vec<StoredAlbumMember>) -> (members: Result<
    Vec<AlbumMember>,
    PersistenceError,
>)
    ensures
        if members_readable(rows@) {
            members is Ok && members->Ok_0@ == members_told(placed(rows@))
        } else {
            members == Err::<Vec<AlbumMember>, PersistenceError>(PersistenceError::Storage)
        },
{
    let order: Vec<usize> = order_places(rows);
    let ghost sorted = placed(rows@);
    let mut members: Vec<AlbumMember> = Vec::new();
    let mut i: usize = 0;
    assert(sorted.take(0) =~= Seq::<StoredAlbumMember>::empty());
    while i < order.len()
        invariant
            i <= order.len(),
            order.len() == rows.len(),
            sorted == placed(rows@),
            forall|j: int|
                0 <= j < order.len() ==> (#[trigger] order@[j]) < rows.len()
                    && rows@[order@[j] as int] == sorted[j],
            forall|j: int|
                0 <= j < i ==> (#[trigger] sorted[j]).removed || member_readable(sorted[j]),
            members@ == members_told(sorted.take(i as int)),
        decreases order.len() - i,
    {
        let row: &StoredAlbumMember = &rows[order[i]];
        proof {
            assert(sorted.take(i + 1).drop_last() =~= sorted.take(i as int));
            assert(sorted.take(i + 1).last() == *row);
        }
        if !row.removed {
            let selection_state: SelectionState = match parse_selection_state(
                &row.selection_state,
            ) {
                Some(state) => state,
                None => {
                    assert(!member_readable(rows@[order@[i as int] as int]));
                    return Err(PersistenceError::Storage);
                },
            };
            if row.position < 0 || row.rating < 0 || row.rating > u8::MAX as i64 {
                assert(!member_readable(rows@[order@[i as int] as int]));
                return Err(PersistenceError::Storage);
            }
            members.push(
                AlbumMember {
                    photo_id: row.photo_id.clone(),
                    position: row.position as u64,
                    available: row.available != 0,
                    selection_state,
                    rating: row.rating as u8,
                },
            );
        }
        i = i + 1;
    }
    proof {
        assert(sorted.take(order@.len() as int) =~= sorted);
        law_members_are_told_by_position(rows@);
        assert forall|j: int| 0 <= j < rows@.len() implies (#[trigger] rows@[j]).removed
            || member_readable(rows@[j]) by {
            assert(sorted.contains(rows@[j]));
            let k = choose|k: int| 0 <= k < sorted.len() && sorted[k] == rows@[j];
            assert(sorted[k].removed || member_readable(sorted[k]));
        }
    }
    Ok(members)
}

/// The columns of an Album with its members.
#[derive(Clone, Debug, PartialEq, Eq)]
pub struct StoredAlbum {
    pub id: String,
    pub name: String,
    pub created_at: i64,
    pub last_reviewed_photo_id: Option<String>,
    pub members: Vec<StoredAlbumMember>,
}

/// An Album with its members.
#[derive(Clone, Debug, PartialEq, Eq)]
pub struct AlbumRecord {
    pub id: String,
    pub name: String,
    pub last_reviewed_photo_id: Option<String>,
    pub members: Vec<AlbumMember>,
}

/// Whether an Album is told as its columns say.
pub open spec fn tells_record(record: AlbumRecord, album: StoredAlbum) -> bool {
    record.id == album.id && record.name == album.name && record.last_reviewed_photo_id
        == album.last_reviewed_photo_id && record.members@ == members_told(placed(album.members@))
}

/// The ages of stored Albums.
pub open spec fn stored_ages(albums: Seq<StoredAlbum>) -> Seq<AlbumAge> {
    Seq::new(
        albums.len(),
        |i: int| AlbumAge { created_at: albums[i].created_at, id: albums[i].id },
    )
}

/// Tells every Album with its members, the oldest one first, or a failure of storage
/// where one cannot be read.
pub fn list_albums(albums: &Vec<StoredAlbum>) -> (records: Result<
    Vec<AlbumRecord>,
    PersistenceError,
>)
    ensures
        if forall|i: int|
            0 <= i < albums.len() ==> members_readable((#[trigger] albums@[i]).members@) {
            records is Ok && records->Ok_0.len() == albums.len() && forall|i: int|
                0 <= i < albums.len() ==> tells_record(
                    #[trigger] records->Ok_0@[i],
                    albums@[creation_order(stored_ages(albums@))[i]],
                )
        } else {
            records == Err::<Vec<AlbumRecord>, PersistenceError>(PersistenceError::Storage)
        },
{
    let mut ages: Vec<AlbumAge> = Vec::new();
    let mut k: usize = 0;
    while k < albums.len()
        invariant
            k <= albums.len(),
            ages@ == stored_ages(albums@).take(k as int),
        decreases albums.len() - k,
    {
        ages.push(AlbumAge { created_at: albums[k].created_at, id: albums[k].id.clone() });
        assert(ages@ =~= stored_ages(albums@).take(k + 1));
        k = k + 1;
    }
    assert(ages@ =~= stored_ages(albums@));
    let order: Vec<usize> = order_by_creation(&ages);
    let ghost places = creation_order(stored_ages(albums@));
    let mut records: Vec<AlbumRecord> = Vec::new();
    let mut i: usize = 0;
    while i < order.len()
        invariant
            i <= order.len(),
            order.len() == albums.len(),
            records.len() == i,
            places == creation_order(stored_ages(albums@)),
            rows_view(order@) == places,
            forall|j: int| 0 <= j < order.len() ==> (#[trigger] order@[j]) < albums.len(),
            forall|j: int|
                0 <= j < i ==> members_readable(albums@[#[trigger] places[j]].members@),
            forall|j: int| 0 <= j < i ==> tells_record(#[trigger] records@[j], albums@[places[j]]),
        decreases order.len() - i,
    {
        let album: &StoredAlbum = &albums[order[i]];
        assert(places[i as int] == order@[i as int]);
        match read_members(&album.members) {
            Ok(members) => {
                records.push(
                    AlbumRecord {
                        id: album.id.clone(),
                        name: album.name.clone(),
                        last_reviewed_photo_id: clone_opt_text(&album.last_reviewed_photo_id),
                        members,
                    },
                );
            },
            Err(error) => {
                assert(!members_readable(albums@[order@[i as int] as int].members@));
                return Err(error);
            },
        }
        i = i + 1;
    }
    assert forall|a: int| 0 <= a < albums.len() implies members_readable(
        (#[trigger] albums@[a]).members@,
    ) by {
        law_older_albums_come_first(stored_ages(albums@));
        assert(places.contains(a));
        let j = choose|j: int| 0 <= j < places.len() && places[j] == a;
        assert(members_readable(albums@[places[j]].members@));
    }
    Ok(records)
}

/// What is told of a Photo is what is stored of it. Its name is the last part of the
/// path. Its Preview is told only where it is ready: its source revision, its width and
/// its height as stored, and a source by the kind of the Original File.
pub proof fn law_photos_are_told_as_stored(
    read: PhotoRead,
    row: StoredPhotoRead,
    version: Seq<char>,
)
    requires
        readable(row),
        tells_photo(read, row, version),
    ensures
        read.id@ == row.id@,
        read.filename@ == row.relative_path@.skip(row.relative_path@.len() - read.filename@.len()),
        forall|i: int| 0 <= i < read.filename@.len() ==> #[trigger] read.filename@[i] != '/',
        read.filename@.len() < row.relative_path@.len() ==> row.relative_path@[
            row.relative_path@.len() - read.filename@.len() - 1
        ] == '/',
        read.original_kind == OriginalKind::Raw <==> row.kind@ == "raw"@,
        read.original_kind == OriginalKind::Jpeg <==> row.kind@ == "jpeg"@,
        read.original_available <==> row.original_available != 0,
        read.selection_state == SelectionState::Undecided <==> row.selection_state@
            == "undecided"@,
        read.selection_state == SelectionState::Selected <==> row.selection_state@ == "selected"@,
        read.selection_state == SelectionState::Rejected <==> row.selection_state@ == "rejected"@,
        read.rating == row.rating,
        read.decision_version@ == version,
        read.has_saved_edits <==> row.saved_edits != 0,
        opt_text(read.capture.order_key) == opt_text(row.capture_order_key),
        opt_text(read.capture.source_revision) == opt_text(row.capture_source_revision),
        read.capture.offset_minutes is Some <==> row.capture_offset_minutes is Some,
        read.capture.offset_minutes is Some ==> read.capture.offset_minutes->0
            == row.capture_offset_minutes->0,
        read.capture.state == CaptureMetadataState::Known <==> row.capture_state@ == "known"@,
        read.capture.field is Some <==> row.capture_field is Some,
        read.preview_state == PreviewState::Ready <==> row.preview_state@ == "ready"@,
        row.preview_state@ == "ready"@ ==> {
            &&& read.preview_source is Some
            &&& row.kind@ == "raw"@ ==> read.preview_source->0 == PreviewSource::RawEmbeddedJpeg
            &&& row.kind@ == "jpeg"@ ==> read.preview_source->0 == PreviewSource::JpegOriginal
            &&& opt_text(read.preview_source_revision) == opt_text(row.preview_source_revision)
            &&& read.preview_width is Some <==> row.preview_width is Some
            &&& read.preview_width is Some ==> read.preview_width->0 == row.preview_width->0
            &&& read.preview_height is Some <==> row.preview_height is Some
            &&& read.preview_height is Some ==> read.preview_height->0 == row.preview_height->0
        },
        row.preview_state@ != "ready"@ ==> read.preview_source is None
            && read.preview_source_revision is None && read.preview_width is None
            && read.preview_height is None,
{
    law_kinds_are_stored_by_name(row.kind@);
    law_selections_are_stored_by_name(row.selection_state@);
    law_states_are_stored_by_name(row.preview_state@);
    law_states_are_stored_by_name(row.capture_state@);
    law_last_parts_follow_the_last_slash(row.relative_path@);
}

/// A Photo is read only where its stored names are known, its rating, dimensions and
/// offset are in range, and its capture facts are whole.
pub proof fn law_photos_are_read_where_whole(row: StoredPhotoRead)
    ensures
        readable(row) ==> {
            &&& row.kind@ == "raw"@ || row.kind@ == "jpeg"@
            &&& row.selection_state@ == "undecided"@ || row.selection_state@ == "selected"@
                || row.selection_state@ == "rejected"@
            &&& 0 <= row.rating <= 255
            &&& row.preview_width is Some ==> 0 <= row.preview_width->0 <= 4_294_967_295
            &&& row.preview_height is Some ==> 0 <= row.preview_height->0 <= 4_294_967_295
            &&& row.capture_offset_minutes is Some ==> -2_147_483_648
                <= row.capture_offset_minutes->0 <= 2_147_483_647
            &&& row.capture_state@ == "known"@ <==> row.capture_order_key is Some
            &&& row.capture_order_key is Some <==> row.capture_field is Some
            &&& row.capture_state@ == "pending"@ ==> row.capture_source_revision is None
        },
{
    law_kinds_are_stored_by_name(row.kind@);
    law_selections_are_stored_by_name(row.selection_state@);
    law_states_are_stored_by_name(row.capture_state@);
    law_capture_facts_are_whole(read_capture(row));
}

/// What is told of a published Photo is what was published of its Original File and its
/// Preview, together with its stored decisions. Its Preview is told only where it is
/// ready.
pub proof fn law_published_photos_are_told(
    read: Option<PhotoRead>,
    versions: MutationVersions,
    projection: PhotoQueryProjection,
    decisions: Option<StoredDecisions>,
    photo_id: Seq<char>,
    c: int,
)
    requires
        projection.wf(),
        !unreadable_decisions(projection, decisions, photo_id),
        tells_projected(read, versions, projection, decisions, photo_id),
        0 <= c < projection.candidates.len(),
        projection.candidates@[c].photo_id@ == photo_id,
    ensures
        read is Some <==> decisions is Some,
        read is Some ==> {
            let candidate = projection.candidates@[c];
            let told = read->0;
            let ready = candidate.preview_state == PreviewState::Ready;
            &&& told.id@ == photo_id
            &&& told.original_kind == candidate.original_kind
            &&& told.original_available == candidate.original_available
            &&& told.rating == decisions->0.rating
            &&& told.selection_state == SelectionState::Undecided
                <==> decisions->0.selection_state@ == "undecided"@
            &&& told.selection_state == SelectionState::Selected
                <==> decisions->0.selection_state@ == "selected"@
            &&& told.selection_state == SelectionState::Rejected
                <==> decisions->0.selection_state@ == "rejected"@
            &&& told.has_saved_edits == decisions->0.saved_edits
            &&& told.decision_version@ == versions.photo_token(photo_id)
            &&& told.capture == candidate.capture
            &&& told.preview_state == candidate.preview_state
            &&& ready ==> told.preview_width == candidate.preview_width && told.preview_height
                == candidate.preview_height && told.preview_source_revision
                == candidate.preview_source_revision && told.preview_source is Some
            &&& ready && candidate.original_kind == OriginalKind::Raw ==> told.preview_source
                == Some(PreviewSource::RawEmbeddedJpeg)
            &&& ready && candidate.original_kind == OriginalKind::Jpeg ==> told.preview_source
                == Some(PreviewSource::JpegOriginal)
            &&& !ready ==> told.preview_width is None && told.preview_height is None
                && told.preview_source_revision is None && told.preview_source is None
        },
{
    assert(projection.index@.contains_key(projection.candidates@[c].photo_id@));
    if decisions is Some {
        law_selections_are_stored_by_name(decisions->0.selection_state@);
    }
}

/// The Albums of a Photo are those that hold it, each told by its identity and name: one
/// Album more is told last where it holds the Photo, and not at all otherwise.
pub proof fn law_albums_of_a_photo_hold_it(
    albums: Seq<AlbumState>,
    album: AlbumState,
    photo_id: Seq<char>,
)
    ensures
        albums_of(Seq::<AlbumState>::empty(), photo_id).len() == 0,
        (exists|m: int|
            0 <= m < album.members.len() && (#[trigger] album.members@[m]).photo_id@ == photo_id)
            ==> {
            let after = albums_of(albums.push(album), photo_id);
            let before = albums_of(albums, photo_id);
            &&& after.len() == before.len() + 1
            &&& after.drop_last() == before
            &&& after.last().album_id == album.id@
            &&& after.last().album_name == album.name@
        },
        (forall|m: int|
            0 <= m < album.members.len() ==> (#[trigger] album.members@[m]).photo_id@ != photo_id)
            ==> albums_of(albums.push(album), photo_id) == albums_of(albums, photo_id),
{
    let all = albums.push(album);
    assert(all.drop_last() =~= albums);
    assert(all.last() == album);
    let before = albums_of(albums, photo_id);
    let told = MembershipView { album_id: album.id@, album_name: album.name@ };
    assert(before.push(told).drop_last() =~= before);
}

/// An Album is browsed through the members that were not removed, in their order: one
/// member more comes last, unless it was removed.
pub proof fn law_browsing_passes_removed_photos(members: Seq<Member>, member: Member)
    ensures
        shown_members(Seq::<Member>::empty()).len() == 0,
        member.removed ==> shown_members(members.push(member)) == shown_members(members),
        !member.removed ==> shown_members(members.push(member)) == shown_members(members).push(
            member.photo_id@,
        ),
{
    assert(members.push(member).drop_last() =~= members);
    assert(members.push(member).last() == member);
}

/// The members of an Album are told as stored, those that were removed left out: one
/// member more comes last with its position, availability, selection and rating.
pub proof fn law_members_are_told_as_stored(rows: Seq<StoredAlbumMember>, row: StoredAlbumMember)
    requires
        row.removed || member_readable(row),
    ensures
        members_told(Seq::<StoredAlbumMember>::empty()).len() == 0,
        row.removed ==> members_told(rows.push(row)) == members_told(rows),
        !row.removed ==> {
            let after = members_told(rows.push(row));
            let told = after.last();
            &&& after.len() == members_told(rows).len() + 1
            &&& after.drop_last() == members_told(rows)
            &&& told.photo_id@ == row.photo_id@
            &&& told.position == row.position
            &&& told.available == (row.available != 0)
            &&& told.rating == row.rating
            &&& told.selection_state == SelectionState::Undecided <==> row.selection_state@
                == "undecided"@
            &&& told.selection_state == SelectionState::Selected <==> row.selection_state@
                == "selected"@
            &&& told.selection_state == SelectionState::Rejected <==> row.selection_state@
                == "rejected"@
        },
{
    law_selections_are_stored_by_name(row.selection_state@);
    let all = rows.push(row);
    assert(all.drop_last() =~= rows);
    assert(all.last() == row);
    let before = members_told(rows);
    assert(before.push(member_told(row)).drop_last() =~= before);
}

/// The members of an Album are read exactly where every row of a Photo that is not removed
/// is whole: its position is not below zero, its decision is one of the three and its rating is a small number.
pub proof fn law_members_are_read_where_whole(rows: Seq<StoredAlbumMember>)
    ensures
        members_readable(rows) <==> forall|i: int|
            0 <= i < rows.len() ==> {
                let row = #[trigger] rows[i];
                row.removed || (0 <= row.position && (row.selection_state@ == "undecided"@
                    || row.selection_state@ == "selected"@ || row.selection_state@
                    == "rejected"@) && 0 <= row.rating <= 255)
            },
{
    assert forall|i: int| 0 <= i < rows.len() implies (member_readable(#[trigger] rows[i]) <==> {
        let row = rows[i];
        &&& 0 <= row.position
        &&& row.selection_state@ == "undecided"@ || row.selection_state@ == "selected"@
            || row.selection_state@ == "rejected"@
        &&& 0 <= row.rating <= 255
    }) by {
        law_selections_are_stored_by_name(rows[i].selection_state@);
        if let Some(state) = selection_of(rows[i].selection_state@) {
            assert(state == SelectionState::Undecided || state == SelectionState::Selected || state
                == SelectionState::Rejected);
        }
    }
}

} // verus!
