//! Album changes that are decided on a version the caller has seen, and how
//! versions move once a change is committed.
use crate::album::{
    checked_album_id, checked_expected_version, AlbumCreationResult, AlbumMembershipMutation,
    AlbumMembershipResult, AlbumMutation, AlbumMutationResult, AlbumSummary, CheckedAlbumMutation,
    CheckedAlbumMutationResult,
};
use crate::album_change::{
    album_version_plan, conflicting_album, conflicting_album_id, decide_album, membership_decided,
    mutate_album, mutate_album_membership, opt_album, planned_album, plans_advance, AlbumChange,
    AlbumFacts, AlbumVersionPlan, MembershipChange,
};
use crate::album_order::{order_states, states_by_creation};
use crate::album_state::{
    count_shown, find_unknown, first_unknown, index_of_member, member_ids, members_are,
    members_view, ordered_as, same_set, saved_after, shown_count, AlbumState, Member, MemberView,
};
use crate::error::{
    album_write_error_from_mutation, album_write_error_of, AlbumWriteError, MutationError,
};
use crate::limits::ALBUM_MEMBERSHIP_BATCH_MAX;
use crate::text::{clone_texts, contains_text, lemma_texts_push, opt_text, same_text, texts};
use crate::versions::{count_of, token_text, MutationVersions};
use vstd::prelude::*;
use vstd::string::*;

verus! {

/// Whether a summary tells an Album: its identity and name, how many of its
/// members are shown, whether a browsing position is saved, and a version.
pub open spec fn tells_album(
    summary: AlbumSummary,
    id: Seq<char>,
    name: Seq<char>,
    members: Seq<MemberView>,
    saved: bool,
    version: Seq<char>,
) -> bool {
    &&& summary.id@ == id
    &&& summary.name@ == name
    &&& summary.photo_count == shown_count(members)
    &&& summary.has_saved_position == saved
    &&& summary.album_version@ == version
}

/// Whether a summary tells an Album, or nothing when there is none.
pub open spec fn tells_read(
    summary: Option<AlbumSummary>,
    versions: MutationVersions,
    album: Option<AlbumState>,
) -> bool {
    match album {
        None => summary is None,
        Some(state) => summary is Some && tells_album(
            summary->0,
            state.id@,
            state.name@,
            state@.members,
            state.saved_photo_id is Some,
            versions.album_token(state.id@),
        ),
    }
}

/// Tells an Album, or nothing when there is none.
pub fn read_album(versions: &MutationVersions, album: &Option<AlbumState>) -> (summary: Option<
    AlbumSummary,
>)
    ensures
        tells_read(summary, *versions, *album),
{
    match album {
        None => None,
        Some(state) => Some(
            AlbumSummary {
                id: state.id.clone(),
                name: state.name.clone(),
                photo_count: count_shown(&state.members),
                has_saved_position: state.saved_photo_id.is_some(),
                album_version: versions.album(state.id.as_str()),
            },
        ),
    }
}

/// Tells Albums, in the order in which they are asked for.
pub fn read_albums(versions: &MutationVersions, albums: &Vec<Option<AlbumState>>) -> (summaries:
    Vec<Option<AlbumSummary>>)
    ensures
        summaries.len() == albums.len(),
        forall|i: int|
            0 <= i < albums.len() ==> tells_read(#[trigger] summaries@[i], *versions, albums@[i]),
{
    let mut summaries: Vec<Option<AlbumSummary>> = Vec::new();
    let mut i: usize = 0;
    while i < albums.len()
        invariant
            i <= albums.len(),
            summaries.len() == i,
            forall|j: int|
                0 <= j < i ==> tells_read(#[trigger] summaries@[j], *versions, albums@[j]),
        decreases albums.len() - i,
    {
        summaries.push(read_album(versions, &albums[i]));
        i = i + 1;
    }
    summaries
}

/// Tells every Album, the oldest one first.
pub fn list_album_summaries(versions: &MutationVersions, albums: &Vec<AlbumState>) -> (summaries:
    Vec<AlbumSummary>)
    ensures
        summaries.len() == albums.len(),
        forall|i: int|
            0 <= i < albums.len() ==> tells_read(
                Some(#[trigger] summaries@[i]),
                *versions,
                Some(states_by_creation(albums@)[i]),
            ),
{
    let order: Vec<usize> = order_states(albums);
    let mut summaries: Vec<AlbumSummary> = Vec::new();
    let mut i: usize = 0;
    while i < order.len()
        invariant
            i <= order.len(),
            order.len() == albums.len(),
            summaries.len() == i,
            forall|j: int|
                0 <= j < order.len() ==> (#[trigger] order@[j]) < albums.len() && albums@[order@[j] as int]
                    == states_by_creation(albums@)[j],
            forall|j: int|
                0 <= j < i ==> tells_read(
                    Some(#[trigger] summaries@[j]),
                    *versions,
                    Some(states_by_creation(albums@)[j]),
                ),
        decreases order.len() - i,
    {
        let album: &AlbumState = &albums[order[i]];
        summaries.push(
            AlbumSummary {
                id: album.id.clone(),
                name: album.name.clone(),
                photo_count: count_shown(&album.members),
                has_saved_position: album.saved_photo_id.is_some(),
                album_version: versions.album(album.id.as_str()),
            },
        );
        i = i + 1;
    }
    summaries
}

/// The identities of a request that a list holds.
pub open spec fn ids_in(current: Seq<Seq<char>>, ids: Seq<Seq<char>>) -> Seq<Seq<char>>
    decreases ids.len(),
{
    if ids.len() == 0 {
        Seq::empty()
    } else if current.contains(ids.last()) {
        ids_in(current, ids.drop_last()).push(ids.last())
    } else {
        ids_in(current, ids.drop_last())
    }
}

/// The identities of a request that a list does not hold.
pub open spec fn ids_not_in(current: Seq<Seq<char>>, ids: Seq<Seq<char>>) -> Seq<Seq<char>>
    decreases ids.len(),
{
    if ids.len() == 0 {
        Seq::empty()
    } else if current.contains(ids.last()) {
        ids_not_in(current, ids.drop_last())
    } else {
        ids_not_in(current, ids.drop_last()).push(ids.last())
    }
}

fn split_request(members: &Vec<Member>, ids: &Vec<String>) -> (split: (Vec<String>, Vec<String>))
    ensures
        texts(split.0@) == ids_in(member_ids(members_view(members@)), texts(ids@)),
        texts(split.1@) == ids_not_in(member_ids(members_view(members@)), texts(ids@)),
{
    let ghost current = member_ids(members_view(members@));
    let ghost wanted = texts(ids@);
    let mut inside: Vec<String> = Vec::new();
    let mut outside: Vec<String> = Vec::new();
    let mut i: usize = 0;
    assert(texts(inside@) =~= ids_in(current, wanted.take(0)));
    assert(texts(outside@) =~= ids_not_in(current, wanted.take(0)));
    while i < ids.len()
        invariant
            i <= ids.len(),
            current == member_ids(members_view(members@)),
            wanted == texts(ids@),
            texts(inside@) == ids_in(current, wanted.take(i as int)),
            texts(outside@) == ids_not_in(current, wanted.take(i as int)),
        decreases ids.len() - i,
    {
        let ghost taken = wanted.take(i + 1);
        proof {
            assert(taken.drop_last() =~= wanted.take(i as int));
            assert(taken.last() == ids@[i as int]@);
            lemma_texts_push(inside@, ids@[i as int]);
            lemma_texts_push(outside@, ids@[i as int]);
        }
        if index_of_member(members, &ids[i]).is_some() {
            inside.push(ids[i].clone());
        } else {
            outside.push(ids[i].clone());
        }
        i = i + 1;
    }
    assert(wanted.take(wanted.len() as int) =~= wanted);
    (inside, outside)
}

/// A decided checked change: the Album's stored state after it, the answer, and
/// how the change counts once it is committed.
#[derive(Clone, Debug, PartialEq, Eq)]
pub struct CheckedAlbumChange {
    pub album_id: String,
    pub next: Option<AlbumState>,
    pub result: CheckedAlbumMutationResult,
    pub advance: bool,
    pub deleted: bool,
}

/// Whether a refusal is an error that names nothing.
pub open spec fn plainly_refused(
    result: Result<CheckedAlbumChange, AlbumWriteError>,
    error: AlbumWriteError,
) -> bool {
    result == Err::<CheckedAlbumChange, AlbumWriteError>(error)
}

/// Whether every Photo of a checked request is known, or the refusal names the
/// first that is not.
pub open spec fn photo_refused(
    facts: AlbumFacts,
    ids: Seq<Seq<char>>,
    result: Result<CheckedAlbumChange, AlbumWriteError>,
) -> bool {
    &&& result matches Err(AlbumWriteError::PhotoNotFound { photo_id })
    &&& first_unknown(facts.photos@, ids) == Some(photo_id@)
}

/// The version of an Album after a change that counts or does not.
pub open spec fn version_after(
    versions: MutationVersions,
    id: Seq<char>,
    advance: bool,
) -> Seq<char> {
    token_text(
        versions.epoch@,
        "album"@,
        id,
        (count_of(versions.album@, id) + if advance {
            1int
        } else {
            0int
        }) as nat,
    )
}

/// Whether the version of an Album may not move any more although it has to.
pub open spec fn stuck(versions: MutationVersions, id: Seq<char>, advance: bool) -> bool {
    advance && count_of(versions.album@, id) == u64::MAX
}

/// What renaming an Album decides.
pub open spec fn rename_decided(
    versions: MutationVersions,
    facts: AlbumFacts,
    album: AlbumState,
    album_id: String,
    name: String,
    result: Result<CheckedAlbumChange, AlbumWriteError>,
) -> bool {
    let renamed = album.name@ != name@;
    match conflicting_album(facts.names@, name@, Some(album_id@)) {
        Some(other) => {
            &&& result matches Err(AlbumWriteError::NameConflict { name: n, album_id: id })
            &&& n@ == name@
            &&& id@ == other
        },
        None => if stuck(versions, album_id@, renamed) {
            plainly_refused(result, AlbumWriteError::Persistence)
        } else {
            match decide_album(
                facts,
                AlbumMutation::Rename { album_id, name },
                Seq::empty(),
                0,
            ) {
                Err(error) => plainly_refused(result, album_write_error_of(error)),
                Ok(decision) => {
                    &&& result matches Ok(change)
                    &&& change.album_id@ == album_id@
                    &&& opt_album(change.next) == decision.next
                    &&& change.advance == renamed
                    &&& !change.deleted
                    &&& change.result matches CheckedAlbumMutationResult::Renamed {
                        album: summary,
                        renamed: told,
                    }
                    &&& told == renamed
                    &&& tells_album(
                        summary,
                        album.id@,
                        name@,
                        album@.members,
                        album.saved_photo_id is Some,
                        version_after(versions, album_id@, renamed),
                    )
                },
            }
        },
    }
}

/// What adding Photos to an Album decides.
pub open spec fn add_decided(
    versions: MutationVersions,
    facts: AlbumFacts,
    album: AlbumState,
    album_id: String,
    photo_ids: Vec<String>,
    result: Result<CheckedAlbumChange, AlbumWriteError>,
) -> bool {
    let ids = texts(photo_ids@);
    let current = member_ids(album@.members);
    let fresh = ids_not_in(current, ids);
    if first_unknown(facts.photos@, ids) is Some {
        photo_refused(facts, ids, result)
    } else if stuck(versions, album_id@, fresh.len() > 0) {
        plainly_refused(result, AlbumWriteError::Persistence)
    } else {
        exists|inner: Result<MembershipChange, MutationError>|
            #[trigger] membership_decided(
                facts,
                AlbumMembershipMutation::Add { album_id, photo_ids },
                inner,
            ) && match inner {
                Err(error) => plainly_refused(result, album_write_error_of(error)),
                Ok(change) => {
                    &&& result matches Ok(checked)
                    &&& checked.album_id@ == album_id@
                    &&& opt_album(checked.next) == Some(change.next@)
                    &&& checked.advance == (fresh.len() > 0)
                    &&& !checked.deleted
                    &&& checked.result matches CheckedAlbumMutationResult::Added {
                        album: summary,
                        added_photo_ids,
                        already_member_photo_ids,
                    }
                    &&& texts(added_photo_ids@) == fresh
                    &&& texts(already_member_photo_ids@) == ids_in(current, ids)
                    &&& tells_album(
                        summary,
                        album.id@,
                        album.name@,
                        change.next@.members,
                        album.saved_photo_id is Some,
                        version_after(versions, album_id@, fresh.len() > 0),
                    )
                },
            }
    }
}

/// What removing Photos from an Album decides.
pub open spec fn remove_decided(
    versions: MutationVersions,
    facts: AlbumFacts,
    album: AlbumState,
    album_id: String,
    photo_ids: Vec<String>,
    result: Result<CheckedAlbumChange, AlbumWriteError>,
) -> bool {
    let ids = texts(photo_ids@);
    let current = member_ids(album@.members);
    let gone = ids_in(current, ids);
    if first_unknown(facts.photos@, ids) is Some {
        photo_refused(facts, ids, result)
    } else if stuck(versions, album_id@, gone.len() > 0) {
        plainly_refused(result, AlbumWriteError::Persistence)
    } else {
        exists|inner: Result<MembershipChange, MutationError>|
            #[trigger] membership_decided(
                facts,
                AlbumMembershipMutation::RemoveAdded { album_id, photo_ids },
                inner,
            ) && match inner {
                Err(error) => plainly_refused(result, album_write_error_of(error)),
                Ok(change) => {
                    let saved = saved_after(album@.saved_photo_id, gone);
                    &&& result matches Ok(checked)
                    &&& checked.album_id@ == album_id@
                    &&& opt_album(checked.next) == Some(change.next@)
                    &&& checked.advance == (gone.len() > 0)
                    &&& !checked.deleted
                    &&& checked.result matches CheckedAlbumMutationResult::Removed {
                        album: summary,
                        removed_photo_ids,
                        already_absent_photo_ids,
                        saved_photo_id,
                    }
                    &&& texts(removed_photo_ids@) == gone
                    &&& texts(already_absent_photo_ids@) == ids_not_in(current, ids)
                    &&& opt_text(saved_photo_id) == saved
                    &&& tells_album(
                        summary,
                        album.id@,
                        album.name@,
                        change.next@.members,
                        saved is Some,
                        version_after(versions, album_id@, gone.len() > 0),
                    )
                },
            }
    }
}

/// What reordering an Album decides.
pub open spec fn reorder_decided(
    versions: MutationVersions,
    facts: AlbumFacts,
    album: AlbumState,
    album_id: String,
    photo_ids: Vec<String>,
    result: Result<CheckedAlbumChange, AlbumWriteError>,
) -> bool {
    let ids = texts(photo_ids@);
    let current = member_ids(album@.members);
    let moved = current != ids;
    if first_unknown(facts.photos@, ids) is Some {
        photo_refused(facts, ids, result)
    } else if current.len() > ALBUM_MEMBERSHIP_BATCH_MAX {
        plainly_refused(
            result,
            AlbumWriteError::LimitExceeded {
                limit: ALBUM_MEMBERSHIP_BATCH_MAX,
                actual: album.members.len(),
            },
        )
    } else if !same_set(current, ids) {
        &&& result matches Err(AlbumWriteError::MembershipConflict {
            album_id: id,
            current_version,
        })
        &&& id@ == album_id@
        &&& current_version@ == versions.album_token(album_id@)
    } else if stuck(versions, album_id@, moved) {
        plainly_refused(result, AlbumWriteError::Persistence)
    } else {
        match decide_album(
            facts,
            AlbumMutation::Reorder { album_id, photo_ids },
            Seq::empty(),
            0,
        ) {
            Err(error) => plainly_refused(result, album_write_error_of(error)),
            Ok(decision) => {
                &&& result matches Ok(change)
                &&& change.album_id@ == album_id@
                &&& opt_album(change.next) == decision.next
                &&& change.advance == moved
                &&& !change.deleted
                &&& change.result matches CheckedAlbumMutationResult::Reordered {
                    album: summary,
                    ordered_photo_ids,
                    reordered: told,
                }
                &&& told == moved
                &&& texts(ordered_photo_ids@) == ids
                &&& tells_album(
                    summary,
                    album.id@,
                    album.name@,
                    album@.members,
                    album.saved_photo_id is Some,
                    version_after(versions, album_id@, moved),
                )
            },
        }
    }
}

/// What a checked change decides. The version is compared before anything else
/// is asked, so a request that would change nothing still conflicts when the
/// Album changed away and back.
pub open spec fn checked_album_decided(
    versions: MutationVersions,
    facts: AlbumFacts,
    mutation: CheckedAlbumMutation,
    result: Result<CheckedAlbumChange, AlbumWriteError>,
) -> bool {
    let id = checked_album_id(mutation)@;
    let token = versions.album_token(id);
    match facts.album {
        None => {
            &&& result matches Err(AlbumWriteError::AlbumNotFound { album_id })
            &&& album_id@ == id
        },
        Some(album) => if token != checked_expected_version(mutation)@ {
            &&& result matches Err(AlbumWriteError::VersionConflict { album_id, current_version })
            &&& album_id@ == id
            &&& current_version@ == token
        } else {
            match mutation {
                CheckedAlbumMutation::Rename { album_id, name, .. } => rename_decided(
                    versions,
                    facts,
                    album,
                    album_id,
                    name,
                    result,
                ),
                CheckedAlbumMutation::Delete { album_id, .. } => {
                    &&& result matches Ok(change)
                    &&& change.album_id@ == id
                    &&& change.next is None
                    &&& !change.advance
                    &&& change.deleted
                    &&& change.result matches CheckedAlbumMutationResult::Deleted {
                        album_id: told,
                    }
                    &&& told@ == id
                },
                CheckedAlbumMutation::AddMembers { album_id, photo_ids, .. } => add_decided(
                    versions,
                    facts,
                    album,
                    album_id,
                    photo_ids,
                    result,
                ),
                CheckedAlbumMutation::RemoveMembers { album_id, photo_ids, .. } => remove_decided(
                    versions,
                    facts,
                    album,
                    album_id,
                    photo_ids,
                    result,
                ),
                CheckedAlbumMutation::Reorder { album_id, photo_ids, .. } => reorder_decided(
                    versions,
                    facts,
                    album,
                    album_id,
                    photo_ids,
                    result,
                ),
            }
        },
    }
}

fn summary_with(
    album: &AlbumState,
    name: &String,
    members: &Vec<Member>,
    saved: bool,
    version: String,
) -> (summary: AlbumSummary)
    ensures
        tells_album(summary, album.id@, name@, members_view(members@), saved, version@),
{
    AlbumSummary {
        id: album.id.clone(),
        name: name.clone(),
        photo_count: count_shown(members),
        has_saved_position: saved,
        album_version: version,
    }
}

fn rename_checked(
    versions: &MutationVersions,
    facts: &AlbumFacts,
    album: &AlbumState,
    album_id: String,
    name: String,
) -> (result: Result<CheckedAlbumChange, AlbumWriteError>)
    requires
        facts.album == Some(*album),
    ensures
        rename_decided(*versions, *facts, *album, album_id, name, result),
{
    match conflicting_album_id(&facts.names, &name, Some(&album_id)) {
        Some(other) => {
            return Err(AlbumWriteError::NameConflict { name, album_id: other });
        },
        None => {},
    }
    let renamed: bool = !same_text(&album.name, &name);
    if renamed && !versions.can_advance_album(album_id.as_str()) {
        return Err(AlbumWriteError::Persistence);
    }
    let mutation: AlbumMutation = AlbumMutation::Rename {
        album_id: album_id.clone(),
        name: name.clone(),
    };
    match mutate_album(facts, &mutation, &String::new(), 0) {
        Err(error) => Err(album_write_error_from_mutation(error)),
        Ok(change) => {
            let version: String = versions.album_after(album_id.as_str(), renamed);
            let summary: AlbumSummary = summary_with(
                album,
                &name,
                &album.members,
                album.saved_photo_id.is_some(),
                version,
            );
            Ok(
                CheckedAlbumChange {
                    album_id,
                    next: change.next,
                    result: CheckedAlbumMutationResult::Renamed { album: summary, renamed },
                    advance: renamed,
                    deleted: false,
                },
            )
        },
    }
}

fn add_checked(
    versions: &MutationVersions,
    facts: &AlbumFacts,
    album: &AlbumState,
    album_id: String,
    photo_ids: Vec<String>,
) -> (result: Result<CheckedAlbumChange, AlbumWriteError>)
    requires
        facts.album == Some(*album),
    ensures
        add_decided(*versions, *facts, *album, album_id, photo_ids, result),
{
    match find_unknown(&facts.photos, &photo_ids) {
        Some(photo_id) => {
            return Err(AlbumWriteError::PhotoNotFound { photo_id: photo_id.clone() });
        },
        None => {},
    }
    let (already, added) = split_request(&album.members, &photo_ids);
    let advance: bool = added.len() > 0;
    assert(texts(added@).len() == added.len());
    if advance && !versions.can_advance_album(album_id.as_str()) {
        return Err(AlbumWriteError::Persistence);
    }
    let version: String = versions.album_after(album_id.as_str(), advance);
    let id: String = album_id.clone();
    let mutation: AlbumMembershipMutation = AlbumMembershipMutation::Add { album_id, photo_ids };
    let inner: Result<MembershipChange, MutationError> = mutate_album_membership(facts, &mutation);
    assert(membership_decided(*facts, mutation, inner));
    match inner {
        Err(error) => Err(album_write_error_from_mutation(error)),
        Ok(change) => {
            let summary: AlbumSummary = summary_with(
                album,
                &album.name,
                &change.next.members,
                album.saved_photo_id.is_some(),
                version,
            );
            Ok(
                CheckedAlbumChange {
                    album_id: id,
                    next: Some(change.next),
                    result: CheckedAlbumMutationResult::Added {
                        album: summary,
                        added_photo_ids: added,
                        already_member_photo_ids: already,
                    },
                    advance,
                    deleted: false,
                },
            )
        },
    }
}

fn remove_checked(
    versions: &MutationVersions,
    facts: &AlbumFacts,
    album: &AlbumState,
    album_id: String,
    photo_ids: Vec<String>,
) -> (result: Result<CheckedAlbumChange, AlbumWriteError>)
    requires
        facts.album == Some(*album),
    ensures
        remove_decided(*versions, *facts, *album, album_id, photo_ids, result),
{
    match find_unknown(&facts.photos, &photo_ids) {
        Some(photo_id) => {
            return Err(AlbumWriteError::PhotoNotFound { photo_id: photo_id.clone() });
        },
        None => {},
    }
    let (gone, absent) = split_request(&album.members, &photo_ids);
    let advance: bool = gone.len() > 0;
    assert(texts(gone@).len() == gone.len());
    if advance && !versions.can_advance_album(album_id.as_str()) {
        return Err(AlbumWriteError::Persistence);
    }
    let version: String = versions.album_after(album_id.as_str(), advance);
    let id: String = album_id.clone();
    let mutation: AlbumMembershipMutation = AlbumMembershipMutation::RemoveAdded {
        album_id,
        photo_ids,
    };
    let inner: Result<MembershipChange, MutationError> = mutate_album_membership(facts, &mutation);
    assert(membership_decided(*facts, mutation, inner));
    match inner {
        Err(error) => Err(album_write_error_from_mutation(error)),
        Ok(change) => {
            let saved: Option<String> = match &album.saved_photo_id {
                Some(kept) => if contains_text(&gone, kept) {
                    None
                } else {
                    Some(kept.clone())
                },
                None => None,
            };
            let summary: AlbumSummary = summary_with(
                album,
                &album.name,
                &change.next.members,
                saved.is_some(),
                version,
            );
            Ok(
                CheckedAlbumChange {
                    album_id: id,
                    next: Some(change.next),
                    result: CheckedAlbumMutationResult::Removed {
                        album: summary,
                        removed_photo_ids: gone,
                        already_absent_photo_ids: absent,
                        saved_photo_id: saved,
                    },
                    advance,
                    deleted: false,
                },
            )
        },
    }
}

fn reorder_checked(
    versions: &MutationVersions,
    facts: &AlbumFacts,
    album: &AlbumState,
    album_id: String,
    photo_ids: Vec<String>,
) -> (result: Result<CheckedAlbumChange, AlbumWriteError>)
    requires
        facts.album == Some(*album),
    ensures
        reorder_decided(*versions, *facts, *album, album_id, photo_ids, result),
{
    match find_unknown(&facts.photos, &photo_ids) {
        Some(photo_id) => {
            return Err(AlbumWriteError::PhotoNotFound { photo_id: photo_id.clone() });
        },
        None => {},
    }
    if album.members.len() > ALBUM_MEMBERSHIP_BATCH_MAX {
        return Err(
            AlbumWriteError::LimitExceeded {
                limit: ALBUM_MEMBERSHIP_BATCH_MAX,
                actual: album.members.len(),
            },
        );
    }
    if !members_are(&album.members, &photo_ids) {
        let current_version: String = versions.album(album_id.as_str());
        return Err(AlbumWriteError::MembershipConflict { album_id, current_version });
    }
    let moved: bool = !ordered_as(&album.members, &photo_ids);
    if moved && !versions.can_advance_album(album_id.as_str()) {
        return Err(AlbumWriteError::Persistence);
    }
    let version: String = versions.album_after(album_id.as_str(), moved);
    let id: String = album_id.clone();
    let ordered: Vec<String> = clone_texts(&photo_ids);
    let mutation: AlbumMutation = AlbumMutation::Reorder { album_id, photo_ids };
    match mutate_album(facts, &mutation, &String::new(), 0) {
        Err(error) => Err(album_write_error_from_mutation(error)),
        Ok(change) => {
            let summary: AlbumSummary = summary_with(
                album,
                &album.name,
                &album.members,
                album.saved_photo_id.is_some(),
                version,
            );
            Ok(
                CheckedAlbumChange {
                    album_id: id,
                    next: change.next,
                    result: CheckedAlbumMutationResult::Reordered {
                        album: summary,
                        ordered_photo_ids: ordered,
                        reordered: moved,
                    },
                    advance: moved,
                    deleted: false,
                },
            )
        },
    }
}

/// Decides a checked Album change. Nothing has changed yet: the answer holds once
/// the change is committed.
pub fn mutate_album_checked(
    versions: &MutationVersions,
    facts: &AlbumFacts,
    mutation: CheckedAlbumMutation,
) -> (result: Result<CheckedAlbumChange, AlbumWriteError>)
    ensures
        checked_album_decided(*versions, *facts, mutation, result),
{
    let (album_id, expected_version): (&String, &String) = match &mutation {
        CheckedAlbumMutation::Rename { album_id, expected_version, .. } => (
            album_id,
            expected_version,
        ),
        CheckedAlbumMutation::Delete { album_id, expected_version } => (
            album_id,
            expected_version,
        ),
        CheckedAlbumMutation::AddMembers { album_id, expected_version, .. } => (
            album_id,
            expected_version,
        ),
        CheckedAlbumMutation::RemoveMembers { album_id, expected_version, .. } => (
            album_id,
            expected_version,
        ),
        CheckedAlbumMutation::Reorder { album_id, expected_version, .. } => (
            album_id,
            expected_version,
        ),
    };
    let album: &AlbumState = match &facts.album {
        None => {
            return Err(AlbumWriteError::AlbumNotFound { album_id: album_id.clone() });
        },
        Some(album) => album,
    };
    let current_version: String = versions.album(album_id.as_str());
    if !same_text(&current_version, expected_version) {
        return Err(
            AlbumWriteError::VersionConflict { album_id: album_id.clone(), current_version },
        );
    }
    match mutation {
        CheckedAlbumMutation::Rename { album_id, name, .. } => rename_checked(
            versions,
            facts,
            album,
            album_id,
            name,
        ),
        CheckedAlbumMutation::Delete { album_id, .. } => Ok(
            CheckedAlbumChange {
                album_id: album_id.clone(),
                next: None,
                result: CheckedAlbumMutationResult::Deleted { album_id },
                advance: false,
                deleted: true,
            },
        ),
        CheckedAlbumMutation::AddMembers { album_id, photo_ids, .. } => add_checked(
            versions,
            facts,
            album,
            album_id,
            photo_ids,
        ),
        CheckedAlbumMutation::RemoveMembers { album_id, photo_ids, .. } => remove_checked(
            versions,
            facts,
            album,
            album_id,
            photo_ids,
        ),
        CheckedAlbumMutation::Reorder { album_id, photo_ids, .. } => reorder_checked(
            versions,
            facts,
            album,
            album_id,
            photo_ids,
        ),
    }
}


/// What committing a change does to the versions: a deleted Album is forgotten,
/// a counted change advances the Album's version, and nothing else moves.
pub open spec fn versions_settled(
    before: MutationVersions,
    after: MutationVersions,
    id: Seq<char>,
    advance: bool,
    deleted: bool,
) -> bool {
    &&& after.epoch == before.epoch
    &&& after.photo@ == before.photo@
    &&& after.album@ == (if deleted {
        before.album@.remove(id)
    } else if advance && count_of(before.album@, id) < u64::MAX {
        before.album@.insert(id, (count_of(before.album@, id) + 1) as u64)
    } else {
        before.album@
    })
}

/// Whether no version moved.
pub open spec fn versions_kept(before: MutationVersions, after: MutationVersions) -> bool {
    &&& after.epoch == before.epoch
    &&& after.photo@ == before.photo@
    &&& after.album@ == before.album@
}

/// Whether the versions after a checked change, and its answer, are what becomes of it.
pub open spec fn checked_album_settled(
    before: MutationVersions,
    change: CheckedAlbumChange,
    committed: Result<(), MutationError>,
    after: MutationVersions,
    result: Result<CheckedAlbumMutationResult, AlbumWriteError>,
) -> bool {
    match committed {
        Err(error) => versions_kept(before, after) && result == Err::<
            CheckedAlbumMutationResult,
            AlbumWriteError,
        >(album_write_error_of(error)),
        Ok(_) => versions_settled(
            before,
            after,
            change.album_id@,
            change.advance,
            change.deleted,
        ) && result == (if !change.deleted && stuck(
            before,
            change.album_id@,
            change.advance,
        ) {
            Err::<CheckedAlbumMutationResult, AlbumWriteError>(AlbumWriteError::Persistence)
        } else {
            Ok::<CheckedAlbumMutationResult, AlbumWriteError>(change.result)
        }),
    }
}

/// Settles a checked change once its transaction ended: a failed commit moves no
/// version and is told as a failure, a committed one counts and is answered.
pub fn settle_checked_album(
    versions: &mut MutationVersions,
    change: CheckedAlbumChange,
    committed: Result<(), MutationError>,
) -> (result: Result<CheckedAlbumMutationResult, AlbumWriteError>)
    ensures
        checked_album_settled(*old(versions), change, committed, *final(versions), result),
{
    match committed {
        Err(error) => Err(album_write_error_from_mutation(error)),
        Ok(_) => {
            if change.deleted {
                versions.forget_album(change.album_id.as_str());
            } else if change.advance {
                match versions.advance_album(change.album_id.as_str()) {
                    Err(error) => {
                        return Err(album_write_error_from_mutation(error));
                    },
                    Ok(_) => {},
                }
            }
            Ok(change.result)
        },
    }
}

/// A decided Album change together with how it counts.
#[derive(Clone, Debug, PartialEq, Eq)]
pub struct PlannedAlbumChange {
    pub change: AlbumChange,
    pub plan: AlbumVersionPlan,
}

/// What an Album change decides and how it counts. A change that has to count is
/// refused while the Album's version cannot move.
pub open spec fn album_planned(
    versions: MutationVersions,
    facts: AlbumFacts,
    mutation: AlbumMutation,
    new_id: Seq<char>,
    now: int,
    result: Result<PlannedAlbumChange, MutationError>,
) -> bool {
    if stuck(versions, planned_album(mutation), plans_advance(facts.album, mutation)) {
        result == Err::<PlannedAlbumChange, MutationError>(MutationError::Persistence)
    } else {
        match decide_album(facts, mutation, new_id, now) {
            Err(error) => result == Err::<PlannedAlbumChange, MutationError>(error),
            Ok(decision) => {
                &&& result matches Ok(planned)
                &&& planned.change@ == decision
                &&& planned.plan.album_id@ == planned_album(mutation)
                &&& planned.plan.advance == plans_advance(facts.album, mutation)
                &&& planned.plan.deleted == (mutation is Delete)
            },
        }
    }
}

/// Decides an Album change and how it counts. A change that has to count is
/// refused while the Album's version cannot move.
pub fn plan_album_mutation(
    versions: &MutationVersions,
    facts: &AlbumFacts,
    mutation: &AlbumMutation,
    new_id: &String,
    now: i64,
) -> (result: Result<PlannedAlbumChange, MutationError>)
    ensures
        album_planned(*versions, *facts, *mutation, new_id@, now as int, result),
{
    let plan: AlbumVersionPlan = album_version_plan(&facts.album, mutation);
    if plan.advance && !versions.can_advance_album(plan.album_id.as_str()) {
        return Err(MutationError::Persistence);
    }
    match mutate_album(facts, mutation, new_id, now) {
        Err(error) => Err(error),
        Ok(change) => Ok(PlannedAlbumChange { change, plan }),
    }
}

/// Whether the versions after a planned change, and its answer, are what becomes of it.
pub open spec fn album_settled(
    before: MutationVersions,
    planned: PlannedAlbumChange,
    committed: Result<(), MutationError>,
    after: MutationVersions,
    result: Result<AlbumMutationResult, MutationError>,
) -> bool {
    match committed {
        Err(error) => versions_kept(before, after) && result == Err::<
            AlbumMutationResult,
            MutationError,
        >(error),
        Ok(_) => versions_settled(
            before,
            after,
            planned.plan.album_id@,
            planned.plan.advance,
            planned.plan.deleted,
        ) && result == Ok::<AlbumMutationResult, MutationError>(planned.change.result),
    }
}

/// Settles an Album change once its transaction ended.
pub fn settle_album_mutation(
    versions: &mut MutationVersions,
    planned: PlannedAlbumChange,
    committed: Result<(), MutationError>,
) -> (result: Result<AlbumMutationResult, MutationError>)
    ensures
        album_settled(*old(versions), planned, committed, *final(versions), result),
{
    match committed {
        Err(error) => Err(error),
        Ok(_) => {
            if planned.plan.deleted {
                versions.forget_album(planned.plan.album_id.as_str());
            } else if planned.plan.advance {
                let _ = versions.advance_album(planned.plan.album_id.as_str());
            }
            Ok(planned.change.result)
        },
    }
}

/// What a membership change decides: it is refused while the Album's version
/// cannot move.
pub open spec fn membership_planned(
    versions: MutationVersions,
    facts: AlbumFacts,
    mutation: AlbumMembershipMutation,
    result: Result<MembershipChange, MutationError>,
) -> bool {
    if count_of(versions.album@, crate::album::membership_target(mutation).0) == u64::MAX {
        result == Err::<MembershipChange, MutationError>(MutationError::Persistence)
    } else {
        membership_decided(facts, mutation, result)
    }
}

/// Decides a membership change, which is refused while the Album's version
/// cannot move.
pub fn plan_album_membership(
    versions: &MutationVersions,
    facts: &AlbumFacts,
    mutation: &AlbumMembershipMutation,
) -> (result: Result<MembershipChange, MutationError>)
    ensures
        membership_planned(*versions, *facts, *mutation, result),
{
    let can: bool = match mutation {
        AlbumMembershipMutation::Add { album_id, .. } => versions.can_advance_album(
            album_id.as_str(),
        ),
        AlbumMembershipMutation::RemoveAdded { album_id, .. } => versions.can_advance_album(
            album_id.as_str(),
        ),
    };
    if !can {
        return Err(MutationError::Persistence);
    }
    mutate_album_membership(facts, mutation)
}

/// Whether the versions after a membership request, and its answer, are what becomes of
/// it.
pub open spec fn membership_settled(
    before: MutationVersions,
    change: MembershipChange,
    committed: Result<(), MutationError>,
    after: MutationVersions,
    result: Result<AlbumMembershipResult, MutationError>,
) -> bool {
    match committed {
        Err(error) => versions_kept(before, after) && result == Err::<
            AlbumMembershipResult,
            MutationError,
        >(error),
        Ok(_) => versions_settled(
            before,
            after,
            change.result.album_id@,
            change.result.added_photo_ids.len() > 0 || change.result.removed_photo_ids.len()
                > 0,
            false,
        ) && result == Ok::<AlbumMembershipResult, MutationError>(change.result),
    }
}

/// Settles a membership change once its transaction ended: it counts when a
/// Photo was added or removed.
pub fn settle_album_membership(
    versions: &mut MutationVersions,
    change: MembershipChange,
    committed: Result<(), MutationError>,
) -> (result: Result<AlbumMembershipResult, MutationError>)
    ensures
        membership_settled(*old(versions), change, committed, *final(versions), result),
{
    match committed {
        Err(error) => Err(error),
        Ok(_) => {
            if change.result.added_photo_ids.len() > 0 || change.result.removed_photo_ids.len()
                > 0 {
                let _ = versions.advance_album(change.result.album_id.as_str());
            }
            Ok(change.result)
        },
    }
}

/// What a checked Album creation decides: the stored state of the new Album and
/// the answer. A name that another Album bears is refused with that Album.
pub open spec fn album_created(
    versions: MutationVersions,
    facts: AlbumFacts,
    name: String,
    new_id: Seq<char>,
    now: int,
    result: Result<(AlbumState, AlbumCreationResult), AlbumWriteError>,
) -> bool {
    match conflicting_album(facts.names@, name@, None) {
        Some(other) => {
            &&& result matches Err(AlbumWriteError::NameConflict { name: n, album_id })
            &&& n@ == name@
            &&& album_id@ == other
        },
        None => match decide_album(facts, AlbumMutation::Create { name }, new_id, now) {
            Err(error) => result == Err::<(AlbumState, AlbumCreationResult), AlbumWriteError>(
                album_write_error_of(error),
            ),
            Ok(decision) => {
                &&& result matches Ok((next, created))
                &&& decision.next == Some(next@)
                &&& tells_album(
                    created.album,
                    new_id,
                    name@,
                    Seq::empty(),
                    false,
                    versions.album_token(new_id),
                )
            },
        },
    }
}

/// Decides a checked Album creation: the stored state of the new Album and the
/// answer. A name that another Album bears is refused with that Album.
pub fn create_album_checked(
    versions: &MutationVersions,
    facts: &AlbumFacts,
    name: String,
    new_id: &String,
    now: i64,
) -> (result: Result<(AlbumState, AlbumCreationResult), AlbumWriteError>)
    ensures
        album_created(*versions, *facts, name, new_id@, now as int, result),
{
    match conflicting_album_id(&facts.names, &name, None) {
        Some(album_id) => {
            return Err(AlbumWriteError::NameConflict { name, album_id });
        },
        None => {},
    }
    let told: String = name.clone();
    let mutation: AlbumMutation = AlbumMutation::Create { name };
    match mutate_album(facts, &mutation, new_id, now) {
        Err(error) => Err(album_write_error_from_mutation(error)),
        Ok(change) => match change.next {
            None => Err(AlbumWriteError::Persistence),
            Some(next) => Ok(
                (
                    next,
                    AlbumCreationResult {
                        album: AlbumSummary {
                            id: new_id.clone(),
                            name: told,
                            photo_count: 0,
                            has_saved_position: false,
                            album_version: versions.album(new_id.as_str()),
                        },
                    },
                ),
            ),
        },
    }
}

} // verus!
