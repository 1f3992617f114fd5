//! What holds of Album changes as a whole.
use crate::album::{
    checked_album_id, checked_expected_version, membership_target, stored_name,
    AlbumCreationResult, AlbumMembershipMutation, AlbumMembershipResult, AlbumMutation, AlbumMutationResult,
    AlbumSummary, CheckedAlbumMutation, CheckedAlbumMutationResult,
};
use crate::album_change::{
    decide_album, decided, first_named, lemma_first_named_found, membership_decided, name_taken, opt_album, plans_advance,
    some_new, AlbumChange, AlbumFacts, AlbumName, MembershipChange,
};
use crate::album_checked::{
    album_settled, checked_album_decided, checked_album_settled, create_album_checked, ids_in,
    ids_not_in, membership_settled, plan_album_mutation, tells_read, version_after, versions_settled, CheckedAlbumChange,
    PlannedAlbumChange,
};
use crate::album_state::{
    absent_ids, added_ids, all_known, already_ids, dense, first_unknown, known, law_add_keeps_positions_dense,
    law_add_partitions_the_request, law_remove_keeps_positions_dense,
    law_removing_what_was_added_restores, law_reorder_keeps_the_members, lemma_added_in_order,
    lemma_ids_without_contains, lemma_known_removed, lemma_members_move_up, lemma_new_members,
    lemma_next_of_dense, lemma_remaining_members, lemma_with_members_ids, lemma_without_member_ids,
    member_ids, presence_ids, removed_ids, reordered, shown_count, with_members, without_members, AlbumState,
    AlbumView, MemberView, PhotoPresence,
};
use crate::error::{AlbumWriteError, MutationError};
use crate::text::{opt_text, stored_length, texts};
use crate::versions::{count_of, law_tokens_are_unique, token_text, MutationVersions};
use vstd::prelude::*;

verus! {

/// An Album whose members are distinct and stand at dense positions.
pub open spec fn sound_album(album: AlbumView) -> bool {
    dense(album.members) && member_ids(album.members).no_duplicates()
}

proof fn lemma_add_keeps_distinct(
    members: Seq<MemberView>,
    photos: Seq<crate::album_state::PhotoPresence>,
    ids: Seq<Seq<char>>,
)
    requires
        member_ids(members).no_duplicates(),
    ensures
        member_ids(with_members(members, photos, ids)).no_duplicates(),
{
    let current = member_ids(members);
    let fresh = added_ids(current, ids);
    lemma_with_members_ids(members, photos, ids);
    law_add_partitions_the_request(current, ids);
    let all = current + fresh;
    assert forall|i: int, j: int|
        0 <= i < all.len() && 0 <= j < all.len() && i != j implies all[i] != all[j] by {
        if i < current.len() && j >= current.len() {
            assert(fresh.contains(fresh[j - current.len()]));
            assert(ids.contains(fresh[j - current.len()]));
            assert(current.contains(current[i]));
        } else if j < current.len() && i >= current.len() {
            assert(fresh.contains(fresh[i - current.len()]));
            assert(ids.contains(fresh[i - current.len()]));
            assert(current.contains(current[j]));
        }
    }
}

/// Every Album change keeps an Album sound: whatever is added, removed or
/// reordered, the members stay distinct and their positions stay dense.
pub proof fn law_album_changes_keep_albums_sound(
    facts: AlbumFacts,
    mutation: AlbumMutation,
    new_id: Seq<char>,
    now: int,
)
    requires
        facts.album is Some ==> sound_album(facts.album->0@),
    ensures
        decide_album(facts, mutation, new_id, now) matches Ok(decision) ==> (
        decision.next is Some ==> sound_album(decision.next->0)),
{
    if decide_album(facts, mutation, new_id, now) is Ok {
        match mutation {
            AlbumMutation::AddMembers { photo_ids, .. } => {
                let members = facts.album->0@.members;
                law_add_keeps_positions_dense(members, facts.photos@, texts(photo_ids@));
                lemma_add_keeps_distinct(members, facts.photos@, texts(photo_ids@));
            },
            AlbumMutation::AddFolderMembers { photo_ids, .. } => {
                let members = facts.album->0@.members;
                law_add_keeps_positions_dense(members, facts.photos@, texts(photo_ids@));
                lemma_add_keeps_distinct(members, facts.photos@, texts(photo_ids@));
            },
            AlbumMutation::RemoveMember { photo_id, .. } => {
                law_remove_keeps_positions_dense(facts.album->0@.members, photo_id@);
            },
            AlbumMutation::Reorder { photo_ids, .. } => {
                law_reorder_keeps_the_members(facts.album->0@.members, texts(photo_ids@));
            },
            AlbumMutation::Create { .. } => {},
            _ => {},
        }
    }
}

/// Membership changes keep an Album sound.
pub proof fn law_membership_changes_keep_albums_sound(
    facts: AlbumFacts,
    mutation: AlbumMembershipMutation,
    result: Result<MembershipChange, MutationError>,
)
    requires
        facts.album is Some ==> sound_album(facts.album->0@),
        membership_decided(facts, mutation, result),
    ensures
        result matches Ok(change) ==> sound_album(change.next@),
{
    if result is Ok {
        let members = facts.album->0@.members;
        let ids = membership_target(mutation).1;
        match mutation {
            AlbumMembershipMutation::Add { .. } => {
                law_add_keeps_positions_dense(members, facts.photos@, ids);
                lemma_add_keeps_distinct(members, facts.photos@, ids);
            },
            AlbumMembershipMutation::RemoveAdded { .. } => {
                lemma_removals_keep_sound(members, ids);
            },
        }
    }
}

proof fn lemma_removals_keep_sound(members: Seq<MemberView>, ids: Seq<Seq<char>>)
    requires
        dense(members),
        member_ids(members).no_duplicates(),
    ensures
        dense(without_members(members, ids)),
        member_ids(without_members(members, ids)).no_duplicates(),
    decreases ids.len(),
{
    if ids.len() > 0 {
        lemma_removals_keep_sound(members, ids.drop_last());
        law_remove_keeps_positions_dense(without_members(members, ids.drop_last()), ids.last());
    }
}

/// Adding Photos and then removing exactly those that the answer reports as
/// added gives back the Album's membership from before.
pub proof fn law_compensation_restores_the_album(
    before: AlbumFacts,
    add: AlbumMembershipMutation,
    added: Result<MembershipChange, MutationError>,
    after: AlbumFacts,
    remove: AlbumMembershipMutation,
    removed: Result<MembershipChange, MutationError>,
)
    requires
        before.album is Some,
        add is Add,
        membership_decided(before, add, added),
        added is Ok,
        after.album == Some(added->Ok_0.next),
        remove is RemoveAdded,
        membership_target(remove).1 == texts(added->Ok_0.result.added_photo_ids@),
        membership_decided(after, remove, removed),
        removed is Ok,
    ensures
        removed->Ok_0.next@.members == before.album->0@.members,
{
    law_removing_what_was_added_restores(
        before.album->0@.members,
        before.photos@,
        membership_target(add).1,
    );
}

/// Repeating a removal removes nothing more and reports every Photo as absent.
pub proof fn law_repeated_removal_is_idempotent(
    members: Seq<MemberView>,
    ids: Seq<Seq<char>>,
)
    ensures
        without_members(without_members(members, ids), ids) == without_members(members, ids),
        removed_ids(member_ids(without_members(members, ids)), ids).len() == 0,
        absent_ids(member_ids(without_members(members, ids)), ids) == ids,
{
    let after = without_members(members, ids);
    assert forall|x: Seq<char>| ids.contains(x) implies !member_ids(after).contains(x) by {
        lemma_remaining_members(members, ids, x);
        lemma_removed_covers(member_ids(members), ids, x);
    }
    lemma_removing_absent(after, ids);
}

proof fn lemma_removed_covers(current: Seq<Seq<char>>, ids: Seq<Seq<char>>, x: Seq<char>)
    requires
        ids.contains(x),
    ensures
        current.contains(x) ==> removed_ids(current, ids).contains(x),
    decreases ids.len(),
{
    let front = ids.drop_last();
    let before = removed_ids(current, front);
    if ids.last() == x {
        assert(before.push(x)[before.len() as int] == x);
    } else {
        let i = choose|i: int| 0 <= i < ids.len() && ids[i] == x;
        assert(front[i] == x);
        lemma_removed_covers(current, front, x);
        if before.contains(x) {
            let j = choose|j: int| 0 <= j < before.len() && before[j] == x;
            assert(before.push(ids.last())[j] == x);
        }
    }
}

proof fn lemma_removing_absent(members: Seq<MemberView>, ids: Seq<Seq<char>>)
    requires
        forall|x: Seq<char>| ids.contains(x) ==> !member_ids(members).contains(x),
    ensures
        without_members(members, ids) == members,
        removed_ids(member_ids(members), ids).len() == 0,
        absent_ids(member_ids(members), ids) == ids,
    decreases ids.len(),
{
    if ids.len() > 0 {
        let front = ids.drop_last();
        assert forall|x: Seq<char>| front.contains(x) implies !member_ids(members).contains(
            x,
        ) by {
            let i = choose|i: int| 0 <= i < front.len() && front[i] == x;
            assert(ids[i] == x);
            assert(ids.contains(x));
        }
        lemma_removing_absent(members, front);
        assert(ids[ids.len() - 1] == ids.last());
        assert(ids.contains(ids.last()));
        crate::text::lemma_first_index_found(member_ids(members), ids.last());
        assert(front.push(ids.last()) =~= ids);
    } else {
        assert(absent_ids(member_ids(members), ids) =~= ids);
    }
}

/// A change counts exactly when it is effective: the Album's version advances if
/// and only if its name or the order of its members is another one afterwards.
/// Saving a browsing position and repeating what holds already do not count.
pub proof fn law_versions_count_effective_changes(
    facts: AlbumFacts,
    mutation: AlbumMutation,
    new_id: Seq<char>,
    now: int,
)
    requires
        !(mutation is Create),
        !(mutation is Delete),
        decide_album(facts, mutation, new_id, now) is Ok,
    ensures
        ({
            let before = facts.album->0@;
            let after = decide_album(facts, mutation, new_id, now)->Ok_0.next->0;
            plans_advance(facts.album, mutation) <==> (after.name != before.name || member_ids(
                after.members,
            ) != member_ids(before.members))
        }),
{
    let before = facts.album->0@;
    let current = member_ids(before.members);
    match mutation {
        AlbumMutation::AddMembers { photo_ids, .. } => {
            lemma_some_new(before.members, facts.photos@, texts(photo_ids@));
        },
        AlbumMutation::AddFolderMembers { photo_ids, .. } => {
            lemma_some_new(before.members, facts.photos@, texts(photo_ids@));
        },
        AlbumMutation::RemoveMember { photo_id, .. } => {
            lemma_without_member_ids(before.members, photo_id@);
            lemma_ids_without_contains(current, photo_id@, photo_id@);
        },
        AlbumMutation::Reorder { photo_ids, .. } => {
            assert(member_ids(reordered(before.members, texts(photo_ids@))) =~= texts(photo_ids@));
        },
        _ => {},
    }
}

proof fn lemma_some_new(
    members: Seq<MemberView>,
    photos: Seq<crate::album_state::PhotoPresence>,
    ids: Seq<Seq<char>>,
)
    ensures
        some_new(member_ids(members), ids) <==> member_ids(with_members(members, photos, ids))
            != member_ids(members),
{
    let current = member_ids(members);
    let fresh = added_ids(current, ids);
    lemma_with_members_ids(members, photos, ids);
    law_add_partitions_the_request(current, ids);
    if some_new(current, ids) {
        let i = choose|i: int| 0 <= i < ids.len() && !current.contains(#[trigger] ids[i]);
        assert(ids.contains(ids[i]));
        assert(fresh.contains(ids[i]));
        assert((current + fresh).len() > current.len());
    } else {
        if fresh.len() > 0 {
            assert(fresh.contains(fresh[0]));
            assert(ids.contains(fresh[0]));
            let i = choose|i: int| 0 <= i < ids.len() && ids[i] == fresh[0];
            assert(!current.contains(ids[i]));
        }
        assert(current + fresh =~= current);
    }
}

/// A request that was decided on an earlier version of an Album always
/// conflicts, whatever it asks and whatever the Album holds now.
pub proof fn law_earlier_versions_conflict(
    versions: MutationVersions,
    facts: AlbumFacts,
    mutation: CheckedAlbumMutation,
    result: Result<CheckedAlbumChange, AlbumWriteError>,
    seen: nat,
)
    requires
        facts.album is Some,
        checked_expected_version(mutation)@ == token_text(
            versions.epoch@,
            "album"@,
            checked_album_id(mutation)@,
            seen,
        ),
        seen != count_of(versions.album@, checked_album_id(mutation)@),
        checked_album_decided(versions, facts, mutation, result),
    ensures
        result is Err,
        result->Err_0 is VersionConflict,
{
    let id = checked_album_id(mutation)@;
    let current = count_of(versions.album@, id) as nat;
    if versions.album_token(id) == checked_expected_version(mutation)@ {
        law_tokens_are_unique(versions.epoch@, "album"@, id, current, id, seen);
    }
}

/// The version that an answer tells is the version that is read once the change
/// is committed.
pub proof fn law_answers_tell_the_committed_version(
    before: MutationVersions,
    after: MutationVersions,
    id: Seq<char>,
    advance: bool,
)
    requires
        versions_settled(before, after, id, advance, false),
        count_of(before.album@, id) < u64::MAX,
    ensures
        after.album_token(id) == version_after(before, id, advance),
{
}

/// For a request that names no Photo twice, the lists of a checked answer are
/// those of the membership change under it.
pub proof fn law_checked_lists_agree(current: Seq<Seq<char>>, ids: Seq<Seq<char>>)
    requires
        ids.no_duplicates(),
    ensures
        ids_not_in(current, ids) == added_ids(current, ids),
        ids_in(current, ids) == already_ids(current, ids),
        ids_in(current, ids) == removed_ids(current, ids),
        ids_not_in(current, ids) == absent_ids(current, ids),
    decreases ids.len(),
{
    if ids.len() > 0 {
        let front = ids.drop_last();
        law_checked_lists_agree(current, front);
        lemma_sublists(current, front);
        let id = ids.last();
        assert(!front.contains(id)) by {
            if front.contains(id) {
                let i = choose|i: int| 0 <= i < front.len() && front[i] == id;
                assert(ids[i] == ids[ids.len() - 1]);
            }
        }
    }
}

proof fn lemma_sublists(current: Seq<Seq<char>>, ids: Seq<Seq<char>>)
    ensures
        forall|x: Seq<char>| #[trigger] added_ids(current, ids).contains(x) ==> ids.contains(x),
        forall|x: Seq<char>| #[trigger] removed_ids(current, ids).contains(x) ==> ids.contains(x),
    decreases ids.len(),
{
    if ids.len() > 0 {
        let front = ids.drop_last();
        lemma_sublists(current, front);
        assert(front.push(ids.last()) =~= ids);
        assert forall|x: Seq<char>| #[trigger] added_ids(current, ids).contains(x) implies
            ids.contains(x) by {
            lemma_from_push(added_ids(current, front), front, ids, x, added_ids(current, ids));
        }
        assert forall|x: Seq<char>| #[trigger] removed_ids(current, ids).contains(x) implies
            ids.contains(x) by {
            lemma_from_push(removed_ids(current, front), front, ids, x, removed_ids(current, ids));
        }
    }
}

proof fn lemma_from_push(
    before: Seq<Seq<char>>,
    front: Seq<Seq<char>>,
    ids: Seq<Seq<char>>,
    x: Seq<char>,
    after: Seq<Seq<char>>,
)
    requires
        ids.len() > 0,
        front == ids.drop_last(),
        before.contains(x) ==> front.contains(x),
        after == before || after == before.push(ids.last()),
        after.contains(x),
    ensures
        ids.contains(x),
{
    let k = choose|k: int| 0 <= k < after.len() && after[k] == x;
    if k < before.len() {
        assert(before[k] == x);
        let i = choose|i: int| 0 <= i < front.len() && front[i] == x;
        assert(ids[i] == x);
    } else {
        assert(ids[ids.len() - 1] == x);
    }
}

/// Whether no two Albums of a list bear one name, as the database tells names apart.
pub open spec fn names_apart(names: Seq<(Seq<char>, Seq<char>)>) -> bool {
    forall|i: int, j: int|
        0 <= i < names.len() && 0 <= j < names.len() && i != j ==> stored_name(
            (#[trigger] names[i]).1,
        ) != stored_name((#[trigger] names[j]).1)
}

/// The identities and names of a list of Albums.
pub open spec fn names_view(names: Seq<AlbumName>) -> Seq<(Seq<char>, Seq<char>)> {
    Seq::new(names.len(), |i: int| (names[i].id@, names[i].name@))
}

/// The names once an Album bears another name, or is a new one.
pub open spec fn names_after(
    names: Seq<(Seq<char>, Seq<char>)>,
    id: Seq<char>,
    name: Seq<char>,
    created: bool,
) -> Seq<(Seq<char>, Seq<char>)> {
    if created {
        names.push((id, name))
    } else {
        Seq::new(
            names.len(),
            |i: int| if names[i].0 == id {
                (id, name)
            } else {
                names[i]
            },
        )
    }
}

/// Album names stay apart, as the database tells them apart: creating or renaming an
/// Album never gives it the name of another one.
pub proof fn law_album_names_stay_apart(
    facts: AlbumFacts,
    mutation: AlbumMutation,
    new_id: Seq<char>,
    now: int,
)
    requires
        mutation is Create || mutation is Rename,
        names_apart(names_view(facts.names@)),
        forall|i: int, j: int|
            0 <= i < facts.names@.len() && 0 <= j < facts.names@.len() && i != j ==> (
            #[trigger] facts.names@[i]).id@ != (#[trigger] facts.names@[j]).id@,
        decide_album(facts, mutation, new_id, now) is Ok,
    ensures
        ({
            let decision = decide_album(facts, mutation, new_id, now)->Ok_0;
            names_apart(
                names_after(
                    names_view(facts.names@),
                    decision.album_id,
                    decision.next->0.name,
                    mutation is Create,
                ),
            )
        }),
{
    let decision = decide_album(facts, mutation, new_id, now)->Ok_0;
    let names = names_view(facts.names@);
    let name = decision.next->0.name;
    let after = names_after(names, decision.album_id, name, mutation is Create);
    assert forall|i: int, j: int|
        0 <= i < after.len() && 0 <= j < after.len() && i != j implies stored_name(
        (#[trigger] after[i]).1,
    ) != stored_name((#[trigger] after[j]).1) by {
        if i < names.len() {
            assert(names[i] == (facts.names@[i].id@, facts.names@[i].name@));
        }
        if j < names.len() {
            assert(names[j] == (facts.names@[j].id@, facts.names@[j].name@));
        }
    }
}

/// Whether everything about an Album but its members is as it was.
pub open spec fn same_head(before: AlbumState, after: AlbumState) -> bool {
    after.id@ == before.id@ && after.name@ == before.name@ && after.created_at == before.created_at
}

/// Whether the members of an Album are as they were.
pub open spec fn same_members(before: AlbumState, after: AlbumState) -> bool {
    after.members.len() == before.members.len() && forall|m: int|
        0 <= m < before.members.len() ==> (#[trigger] after.members@[m]).photo_id@
            == before.members@[m].photo_id@ && after.members@[m].position
            == before.members@[m].position && after.members@[m].removed
            == before.members@[m].removed
}

proof fn lemma_same_members(before: AlbumState, after: AlbumState)
    requires
        after@.members == before@.members,
    ensures
        same_members(before, after),
{
    assert(after@.members.len() == after.members.len());
    assert(before@.members.len() == before.members.len());
    assert forall|m: int| 0 <= m < before.members.len() implies (
    #[trigger] after.members@[m]).photo_id@ == before.members@[m].photo_id@
        && after.members@[m].position == before.members@[m].position && after.members@[m].removed
        == before.members@[m].removed by {
        assert(after@.members[m] == after.members@[m]@);
        assert(before@.members[m] == before.members@[m]@);
    }
}

/// An Album is created under the identity given, with the name asked for, at the time
/// given, without members and without a position.
pub proof fn law_albums_are_created_empty(
    facts: AlbumFacts,
    name: String,
    new_id: Seq<char>,
    now: i64,
    result: Result<AlbumChange, MutationError>,
)
    requires
        decided(
            result,
            decide_album(facts, AlbumMutation::Create { name }, new_id, now as int),
        ),
    ensures
        result matches Ok(change) ==> {
            &&& change.next is Some
            &&& change.next->0.id@ == new_id
            &&& change.next->0.name@ == name@
            &&& change.next->0.created_at == now
            &&& change.next->0.members.len() == 0
            &&& change.next->0.saved_photo_id is None
            &&& change.result.album_id@ == new_id
            &&& change.result.added_count == 0
            &&& change.result.already_member_count == 0
        },
        (exists|i: int| 0 <= i < facts.names.len() && (#[trigger] facts.names@[i]).id@ == new_id)
            ==> result == Err::<AlbumChange, MutationError>(MutationError::Conflict),
        (exists|i: int|
            0 <= i < facts.names.len() && (#[trigger] facts.names@[i]).name@ == name@) ==> result
            == Err::<AlbumChange, MutationError>(MutationError::Conflict),
        stored_length(name@) == 0 || stored_length(name@) > 120 ==> result == Err::<
            AlbumChange,
            MutationError,
        >(MutationError::Conflict),
        1 <= stored_length(name@) <= 120 && (forall|i: int|
            0 <= i < facts.names.len() ==> (#[trigger] facts.names@[i]).id@ != new_id
                && stored_name(facts.names@[i].name@) != stored_name(name@)) ==> result is Ok,
{
    if let Ok(change) = result {
        let next = change.next->0;
        assert(change@.next == Some(next@));
        assert(next@.members.len() == next.members.len());
    }
    if exists|i: int|
        0 <= i < facts.names.len() && (#[trigger] facts.names@[i]).name@ == name@ {
        let i = choose|i: int|
            0 <= i < facts.names.len() && (#[trigger] facts.names@[i]).name@ == name@;
        assert(stored_name(facts.names@[i].name@) == stored_name(name@));
        assert(name_taken(facts.names@, name@, None));
    }
}

/// A renamed Album has the new name, and everything else of it stays. A name that
/// another Album has, and a name that is too long or none, are conflicts; its own name
/// is none.
pub proof fn law_renames_change_the_name(
    facts: AlbumFacts,
    album_id: String,
    name: String,
    new_id: Seq<char>,
    now: i64,
    result: Result<AlbumChange, MutationError>,
)
    requires
        decided(
            result,
            decide_album(facts, AlbumMutation::Rename { album_id, name }, new_id, now as int),
        ),
    ensures
        facts.album is None ==> result == Err::<AlbumChange, MutationError>(
            MutationError::NotFound,
        ),
        facts.album is Some ==> {
            let before = facts.album->0;
            &&& result matches Ok(change) ==> {
                &&& change.next is Some
                &&& change.next->0.id@ == before.id@
                &&& change.next->0.name@ == name@
                &&& change.next->0.created_at == before.created_at
                &&& same_members(before, change.next->0)
                &&& opt_text(change.next->0.saved_photo_id) == opt_text(before.saved_photo_id)
                &&& change.result.album_id@ == album_id@
            }
            &&& (exists|i: int|
                0 <= i < facts.names.len() && (#[trigger] facts.names@[i]).name@ == name@
                    && facts.names@[i].id@ != album_id@) ==> result == Err::<
                AlbumChange,
                MutationError,
            >(MutationError::Conflict)
            &&& stored_length(name@) == 0 || stored_length(name@) > 120 ==> result == Err::<
                AlbumChange,
                MutationError,
            >(MutationError::Conflict)
            &&& 1 <= stored_length(name@) <= 120 && (forall|i: int|
                0 <= i < facts.names.len() ==> (#[trigger] facts.names@[i]).id@ == album_id@
                    || stored_name(facts.names@[i].name@) != stored_name(name@)) ==> result is Ok
        },
{
    if facts.album is Some {
        if let Ok(change) = result {
            assert(change@.next == Some(change.next->0@));
            lemma_same_members(facts.album->0, change.next->0);
        }
        if exists|i: int|
            0 <= i < facts.names.len() && (#[trigger] facts.names@[i]).name@ == name@
                && facts.names@[i].id@ != album_id@ {
            let i = choose|i: int|
                0 <= i < facts.names.len() && (#[trigger] facts.names@[i]).name@ == name@
                    && facts.names@[i].id@ != album_id@;
            assert(stored_name(facts.names@[i].name@) == stored_name(name@));
            assert(name_taken(facts.names@, name@, Some(album_id@)));
        }
    }
}

/// A deleted Album is gone; one that is not there is not found.
pub proof fn law_deleted_albums_are_gone(
    facts: AlbumFacts,
    album_id: String,
    new_id: Seq<char>,
    now: i64,
    result: Result<AlbumChange, MutationError>,
)
    requires
        decided(
            result,
            decide_album(facts, AlbumMutation::Delete { album_id }, new_id, now as int),
        ),
    ensures
        result is Ok <==> facts.album is Some,
        result is Ok ==> result->Ok_0.next is None && result->Ok_0.result.album_id@ == album_id@,
        result is Err ==> result->Err_0 == MutationError::NotFound,
{
}

/// Whether a request names one Photo before another.
pub open spec fn asked_before(ids: Seq<String>, left: Seq<char>, right: Seq<char>) -> bool {
    exists|a: int, b: int|
        0 <= a < b < ids.len() && (#[trigger] ids[a])@ == left && (#[trigger] ids[b])@ == right
}

/// Whether an Album is what adding Photos to it gives: the members that it had stay
/// where they were; every Photo asked for is a member; the others are Photos asked for
/// that were none, at the positions behind, in the order of the request.
pub open spec fn grown(
    before: AlbumState,
    photos: Seq<PhotoPresence>,
    ids: Seq<String>,
    after: AlbumState,
) -> bool {
    let n = before.members.len() as int;
    &&& same_head(before, after)
    &&& opt_text(after.saved_photo_id) == opt_text(before.saved_photo_id)
    &&& after.members.len() >= n
    &&& forall|m: int|
        0 <= m < n ==> (#[trigger] after.members@[m]).photo_id@ == before.members@[m].photo_id@
            && after.members@[m].position == before.members@[m].position
            && after.members@[m].removed == before.members@[m].removed
    &&& forall|k: int|
        0 <= k < ids.len() ==> exists|m: int|
            0 <= m < after.members.len() && (#[trigger] after.members@[m]).photo_id@ == (
            #[trigger] ids[k])@
    &&& forall|m: int|
        n <= m < after.members.len() ==> {
            &&& (#[trigger] after.members@[m]).position == m
            &&& exists|k: int|
                0 <= k < ids.len() && (#[trigger] ids[k])@ == after.members@[m].photo_id@
            &&& forall|j: int|
                0 <= j < n ==> (#[trigger] before.members@[j]).photo_id@
                    != after.members@[m].photo_id@
            &&& forall|p: int|
                0 <= p < photos.len() && (#[trigger] photos[p]).photo_id@
                    == after.members@[m].photo_id@ ==> after.members@[m].removed
                    == photos[p].removed
        }
    &&& forall|x: int, y: int|
        n <= x < y < after.members.len() ==> asked_before(
            ids,
            (#[trigger] after.members@[x]).photo_id@,
            (#[trigger] after.members@[y]).photo_id@,
        )
}

proof fn lemma_added_from(current: Seq<Seq<char>>, ids: Seq<Seq<char>>, a: int)
    requires
        0 <= a < added_ids(current, ids).len(),
    ensures
        ids.contains(added_ids(current, ids)[a]),
        !current.contains(added_ids(current, ids)[a]),
{
    law_add_partitions_the_request(current, ids);
    let id = added_ids(current, ids)[a];
    assert(added_ids(current, ids).contains(id));
    if !ids.contains(id) {
        assert(false);
    }
}

proof fn lemma_grown(
    before: AlbumState,
    photos: Seq<PhotoPresence>,
    ids: Seq<String>,
    after: AlbumState,
)
    requires
        sound_album(before@),
        forall|a: int, b: int|
            0 <= a < b < photos.len() ==> (#[trigger] photos[a]).photo_id@ != (
            #[trigger] photos[b]).photo_id@,
        after@ == (AlbumView {
            members: with_members(before@.members, photos, texts(ids)),
            ..before@
        }),
    ensures
        grown(before, photos, ids, after),
        after.members.len() == before.members.len() + added_ids(
            member_ids(before@.members),
            texts(ids),
        ).len(),
{
    let members = before@.members;
    let list = texts(ids);
    let current = member_ids(members);
    let added = added_ids(current, list);
    let n = before.members.len() as int;
    assert(members.len() == n);
    assert(after@.members.len() == after.members.len());
    lemma_new_members(members, photos, list);
    law_add_keeps_positions_dense(members, photos, list);
    law_add_partitions_the_request(current, list);
    lemma_with_members_ids(members, photos, list);
    assert forall|m: int| 0 <= m < n implies (#[trigger] after.members@[m]).photo_id@
        == before.members@[m].photo_id@ && after.members@[m].position
        == before.members@[m].position && after.members@[m].removed
        == before.members@[m].removed by {
        assert(after@.members[m] == after.members@[m]@);
        assert(members[m] == before.members@[m]@);
    }
    assert forall|k: int| 0 <= k < ids.len() implies exists|m: int|
        0 <= m < after.members.len() && (#[trigger] after.members@[m]).photo_id@ == (
        #[trigger] ids[k])@ by {
        assert(list[k] == ids[k]@);
        assert(list.contains(ids[k]@));
        if current.contains(ids[k]@) {
            let m = choose|m: int| 0 <= m < current.len() && current[m] == ids[k]@;
            assert(members[m] == before.members@[m]@);
            assert(after.members@[m].photo_id@ == ids[k]@);
        } else {
            let a = choose|a: int| 0 <= a < added.len() && added[a] == ids[k]@;
            assert(after@.members[n + a] == after.members@[n + a]@);
            assert(after.members@[n + a].photo_id@ == ids[k]@);
        }
    }
    assert forall|m: int| n <= m < after.members.len() implies {
        &&& (#[trigger] after.members@[m]).position == m
        &&& exists|k: int|
            0 <= k < ids.len() && (#[trigger] ids[k])@ == after.members@[m].photo_id@
        &&& forall|j: int|
            0 <= j < n ==> (#[trigger] before.members@[j]).photo_id@
                != after.members@[m].photo_id@
        &&& forall|p: int|
            0 <= p < photos.len() && (#[trigger] photos[p]).photo_id@
                == after.members@[m].photo_id@ ==> after.members@[m].removed == photos[p].removed
    } by {
        let id = after.members@[m].photo_id@;
        assert(after@.members[m] == after.members@[m]@);
        lemma_added_from(current, list, m - n);
        let k = choose|k: int| 0 <= k < list.len() && list[k] == id;
        assert(list[k] == ids[k]@);
        assert forall|j: int| 0 <= j < n implies (#[trigger] before.members@[j]).photo_id@
            != id by {
            assert(members[j] == before.members@[j]@);
            assert(current[j] == before.members@[j].photo_id@);
        }
        assert forall|p: int|
            0 <= p < photos.len() && (#[trigger] photos[p]).photo_id@ == id implies
            after.members@[m].removed == photos[p].removed by {
            lemma_known_removed(photos, p);
        }
    }
    assert forall|x: int, y: int| n <= x < y < after.members.len() implies asked_before(
        ids,
        (#[trigger] after.members@[x]).photo_id@,
        (#[trigger] after.members@[y]).photo_id@,
    ) by {
        assert(after@.members[x] == after.members@[x]@);
        assert(after@.members[y] == after.members@[y]@);
        lemma_added_in_order(current, list, x - n, y - n);
        let (a, b) = choose|a: int, b: int|
            0 <= a < b < list.len() && #[trigger] list[a] == added[x - n] && #[trigger] list[b]
                == added[y - n];
        assert(list[a] == ids[a]@ && list[b] == ids[b]@);
    }
}

/// Adding Photos to an Album keeps its members where they are and puts the Photos that
/// were none behind them, in the order of the request; the counts tell how many were new
/// and how many were there. A Photo that is not known is not found, and neither is an
/// Album that is not there.
pub proof fn law_added_photos_follow_the_members(
    facts: AlbumFacts,
    mutation: AlbumMutation,
    album_id: String,
    photo_ids: Vec<String>,
    new_id: Seq<char>,
    now: i64,
    result: Result<AlbumChange, MutationError>,
)
    requires
        decided(result, decide_album(facts, mutation, new_id, now as int)),
        mutation == (AlbumMutation::AddMembers { album_id, photo_ids }) || mutation == (
        AlbumMutation::AddFolderMembers { album_id, photo_ids }),
        facts.album is Some ==> sound_album(facts.album->0@),
        forall|a: int, b: int|
            0 <= a < b < facts.photos.len() ==> (#[trigger] facts.photos@[a]).photo_id@ != (
            #[trigger] facts.photos@[b]).photo_id@,
    ensures
        facts.album is None ==> result == Err::<AlbumChange, MutationError>(
            MutationError::NotFound,
        ),
        facts.album is Some ==> {
            let before = facts.album->0;
            let all = forall|k: int|
                0 <= k < photo_ids.len() ==> exists|p: int|
                    0 <= p < facts.photos.len() && (#[trigger] facts.photos@[p]).photo_id@ == (
                    #[trigger] photo_ids@[k])@;
            &&& !all ==> result == Err::<AlbumChange, MutationError>(MutationError::NotFound)
            &&& all && before.members.len() + photo_ids.len() <= i64::MAX ==> result is Ok
            &&& result is Ok ==> {
                let change = result->Ok_0;
                &&& change.next is Some
                &&& grown(before, facts.photos@, photo_ids@, change.next->0)
                &&& change.result.added_count == change.next->0.members.len()
                    - before.members.len()
                &&& change.result.added_count + change.result.already_member_count
                    == photo_ids.len()
            }
        },
{
    let ids = texts(photo_ids@);
    if facts.album is Some {
        let before = facts.album->0;
        let current = member_ids(before@.members);
        law_add_partitions_the_request(current, ids);
        assert(before@.members.len() == before.members.len());
        let all = forall|k: int|
            0 <= k < photo_ids.len() ==> exists|p: int|
                0 <= p < facts.photos.len() && (#[trigger] facts.photos@[p]).photo_id@ == (
                #[trigger] photo_ids@[k])@;
        assert(all == all_known(facts.photos@, ids)) by {
            if all {
                assert forall|i: int| 0 <= i < ids.len() implies known(
                    facts.photos@,
                    #[trigger] ids[i],
                ) by {
                    assert(ids[i] == photo_ids@[i]@);
                    let p = choose|p: int|
                        0 <= p < facts.photos.len() && (#[trigger] facts.photos@[p]).photo_id@
                            == photo_ids@[i]@;
                    lemma_known_removed(facts.photos@, p);
                }
            }
            if all_known(facts.photos@, ids) {
                assert forall|k: int| 0 <= k < photo_ids.len() implies exists|p: int|
                    0 <= p < facts.photos.len() && (#[trigger] facts.photos@[p]).photo_id@ == (
                    #[trigger] photo_ids@[k])@ by {
                    assert(ids[k] == photo_ids@[k]@);
                    let list = presence_ids(facts.photos@);
                    assert(list.contains(ids[k]));
                    let p = choose|p: int| 0 <= p < list.len() && list[p] == ids[k];
                    assert(facts.photos@[p].photo_id@ == photo_ids@[k]@);
                }
            }
        }
        lemma_next_of_dense(before@.members);
        if result is Ok {
            let change = result->Ok_0;
            assert(change@.next == Some(change.next->0@));
            lemma_grown(before, facts.photos@, photo_ids@, change.next->0);
        }
    }
}

/// Whether an Album is what taking one Photo from it gives: the Photo is no member, the
/// members before it stay, those behind it move up by one, and a position at the Photo
/// is lost.
pub open spec fn shrunk(before: AlbumState, at: int, after: AlbumState) -> bool {
    let id = before.members@[at].photo_id@;
    &&& same_head(before, after)
    &&& after.members.len() == before.members.len() - 1
    &&& forall|m: int|
        0 <= m < at ==> (#[trigger] after.members@[m]).photo_id@ == before.members@[m].photo_id@
            && after.members@[m].position == before.members@[m].position
            && after.members@[m].removed == before.members@[m].removed
    &&& forall|m: int|
        at <= m < after.members.len() ==> (#[trigger] after.members@[m]).photo_id@
            == before.members@[m + 1].photo_id@ && after.members@[m].position == m
            && after.members@[m].removed == before.members@[m + 1].removed
    &&& opt_text(before.saved_photo_id) == Some(id) ==> after.saved_photo_id is None
    &&& opt_text(before.saved_photo_id) != Some(id) ==> opt_text(after.saved_photo_id)
        == opt_text(before.saved_photo_id)
}

/// Taking a Photo from an Album closes the gap that it leaves; a Photo that is no member
/// is not found.
pub proof fn law_removed_photos_leave_no_gap(
    facts: AlbumFacts,
    album_id: String,
    photo_id: String,
    new_id: Seq<char>,
    now: i64,
    result: Result<AlbumChange, MutationError>,
    at: int,
)
    requires
        decided(
            result,
            decide_album(
                facts,
                AlbumMutation::RemoveMember { album_id, photo_id },
                new_id,
                now as int,
            ),
        ),
        facts.album is Some,
        sound_album(facts.album->0@),
    ensures
        ({
            let before = facts.album->0;
            &&& (forall|m: int|
                0 <= m < before.members.len() ==> (#[trigger] before.members@[m]).photo_id@
                    != photo_id@) ==> result == Err::<AlbumChange, MutationError>(
                MutationError::NotFound,
            )
            &&& 0 <= at < before.members.len() && before.members@[at].photo_id@ == photo_id@
                ==> result is Ok && result->Ok_0.next is Some && shrunk(
                before,
                at,
                result->Ok_0.next->0,
            )
        }),
{
    let before = facts.album->0;
    let members = before@.members;
    let current = member_ids(members);
    assert(members.len() == before.members.len());
    if forall|m: int|
        0 <= m < before.members.len() ==> (#[trigger] before.members@[m]).photo_id@ != photo_id@ {
        if current.contains(photo_id@) {
            let m = choose|m: int| 0 <= m < current.len() && current[m] == photo_id@;
            assert(members[m] == before.members@[m]@);
        }
    }
    if 0 <= at < before.members.len() && before.members@[at].photo_id@ == photo_id@ {
        assert(members[at] == before.members@[at]@);
        assert(current[at] == photo_id@);
        assert(current.contains(photo_id@));
        lemma_members_move_up(members, at);
        let after = result->Ok_0.next->0;
        assert(result->Ok_0@.next == Some(after@));
        assert(after@.members.len() == after.members.len());
        assert forall|m: int| 0 <= m < after.members.len() implies after@.members[m]
            == #[trigger] after.members@[m]@ by {}
        assert forall|m: int| 0 <= m < before.members.len() implies members[m]
            == #[trigger] before.members@[m]@ by {}
        assert forall|m: int| 0 <= m < at implies (#[trigger] after.members@[m]).photo_id@
            == before.members@[m].photo_id@ && after.members@[m].position
            == before.members@[m].position && after.members@[m].removed
            == before.members@[m].removed by {
            assert(after@.members[m] == after.members@[m]@);
            assert(members[m] == before.members@[m]@);
        }
        assert forall|m: int| at <= m < after.members.len() implies (
        #[trigger] after.members@[m]).photo_id@ == before.members@[m + 1].photo_id@
            && after.members@[m].position == m && after.members@[m].removed
            == before.members@[m + 1].removed by {
            assert(after@.members[m] == after.members@[m]@);
            assert(members[m + 1] == before.members@[m + 1]@);
        }
        let gone = seq![photo_id@];
        assert(gone[0] == photo_id@);
        assert(gone.contains(photo_id@));
        if before.saved_photo_id is Some && before.saved_photo_id->0@ != photo_id@ {
            assert(!gone.contains(before.saved_photo_id->0@));
        }
    }
}

/// A reordered Album holds the same Photos in the order of the request, at positions
/// from zero on, each as removed or not as it was. A request that leaves a member out,
/// names another Photo, or names one twice, is a conflict.
pub proof fn law_reordered_albums_stand_as_asked(
    facts: AlbumFacts,
    album_id: String,
    photo_ids: Vec<String>,
    new_id: Seq<char>,
    now: i64,
    result: Result<AlbumChange, MutationError>,
    k: int,
    m: int,
)
    requires
        decided(
            result,
            decide_album(
                facts,
                AlbumMutation::Reorder { album_id, photo_ids },
                new_id,
                now as int,
            ),
        ),
        facts.album is Some,
        sound_album(facts.album->0@),
    ensures
        ({
            let before = facts.album->0;
            let after = result->Ok_0.next->0;
            &&& result is Err ==> result->Err_0 == MutationError::Conflict
            &&& result is Ok ==> {
                &&& result->Ok_0.next is Some
                &&& same_head(before, after)
                &&& opt_text(after.saved_photo_id) == opt_text(before.saved_photo_id)
                &&& after.members.len() == before.members.len()
                &&& after.members.len() == photo_ids.len()
                &&& 0 <= k < photo_ids.len() ==> after.members@[k].photo_id@ == photo_ids@[k]@
                    && after.members@[k].position == k
                &&& 0 <= k < photo_ids.len() && 0 <= m < before.members.len()
                    && before.members@[m].photo_id@ == photo_ids@[k]@ ==> after.members@[k].removed
                    == before.members@[m].removed
            }
            &&& 0 <= m < before.members.len() && (forall|j: int|
                0 <= j < photo_ids.len() ==> (#[trigger] photo_ids@[j])@
                    != before.members@[m].photo_id@) ==> result is Err
            &&& 0 <= k < photo_ids.len() && (forall|j: int|
                0 <= j < before.members.len() ==> (#[trigger] before.members@[j]).photo_id@
                    != photo_ids@[k]@) ==> result is Err
            &&& 0 <= k < m < photo_ids.len() && photo_ids@[k]@ == photo_ids@[m]@ ==> result is Err
        }),
{
    let before = facts.album->0;
    let members = before@.members;
    let current = member_ids(members);
    let ids = texts(photo_ids@);
    assert(members.len() == before.members.len());
    if result is Ok {
        let after = result->Ok_0.next->0;
        assert(result->Ok_0@.next == Some(after@));
        assert(after@.members.len() == after.members.len());
        law_reorder_keeps_the_members(members, ids);
        if 0 <= k < photo_ids.len() {
            assert(after@.members[k] == after.members@[k]@);
            assert(ids[k] == photo_ids@[k]@);
            if 0 <= m < before.members.len() && before.members@[m].photo_id@ == photo_ids@[k]@ {
                assert(members[m] == before.members@[m]@);
                assert(reordered(members, ids)[k].removed == members[m].removed);
            }
        }
        if 0 <= m < before.members.len() {
            assert(members[m] == before.members@[m]@);
            assert(current[m] == before.members@[m].photo_id@);
            assert(current.contains(current[m]));
            assert(ids.contains(current[m]));
            let j = choose|j: int| 0 <= j < ids.len() && ids[j] == current[m];
            assert(ids[j] == photo_ids@[j]@);
        }
        if 0 <= k < photo_ids.len() {
            assert(ids.contains(ids[k]));
            assert(current.contains(ids[k]));
            let j = choose|j: int| 0 <= j < current.len() && current[j] == ids[k];
            assert(members[j] == before.members@[j]@);
        }
        if 0 <= k < m < photo_ids.len() {
            assert(ids[k] != ids[m]);
            assert(ids[m] == photo_ids@[m]@);
        }
    }
}

/// The position of an Album is set to the Photo asked for, where that is a member, and
/// nothing else of the Album changes.
pub proof fn law_positions_are_set_to_members(
    facts: AlbumFacts,
    album_id: String,
    photo_id: String,
    new_id: Seq<char>,
    now: i64,
    result: Result<AlbumChange, MutationError>,
)
    requires
        decided(
            result,
            decide_album(
                facts,
                AlbumMutation::SetProgress { album_id, photo_id },
                new_id,
                now as int,
            ),
        ),
    ensures
        result is Err ==> result->Err_0 == MutationError::NotFound,
        result is Ok <==> facts.album is Some && exists|m: int|
            0 <= m < facts.album->0.members.len() && (
            #[trigger] facts.album->0.members@[m]).photo_id@ == photo_id@,
        result is Ok ==> {
            &&& result->Ok_0.next is Some
            &&& same_head(facts.album->0, result->Ok_0.next->0)
            &&& same_members(facts.album->0, result->Ok_0.next->0)
            &&& opt_text(result->Ok_0.next->0.saved_photo_id) == Some(photo_id@)
        },
{
    if facts.album is Some {
        let before = facts.album->0;
        let current = member_ids(before@.members);
        assert(before@.members.len() == before.members.len());
        if current.contains(photo_id@) {
            let m = choose|m: int| 0 <= m < current.len() && current[m] == photo_id@;
            assert(before@.members[m] == before.members@[m]@);
            assert(before.members@[m].photo_id@ == photo_id@);
        }
        if exists|m: int|
            0 <= m < before.members.len() && (#[trigger] before.members@[m]).photo_id@
                == photo_id@ {
            let m = choose|m: int|
                0 <= m < before.members.len() && (#[trigger] before.members@[m]).photo_id@
                    == photo_id@;
            assert(before@.members[m] == before.members@[m]@);
            assert(current[m] == photo_id@);
        }
        if result is Ok {
            assert(result->Ok_0@.next == Some(result->Ok_0.next->0@));
            lemma_same_members(before, result->Ok_0.next->0);
        }
    }
}

/// Adding Photos to an Album by a request that can be taken back tells each Photo of the
/// request once, as added or as there already, and does to the Album what adding does.
pub proof fn law_membership_requests_add_photos(
    facts: AlbumFacts,
    album_id: String,
    photo_ids: Vec<String>,
    change: MembershipChange,
)
    requires
        membership_decided(
            facts,
            AlbumMembershipMutation::Add { album_id, photo_ids },
            Ok(change),
        ),
        facts.album is Some,
        sound_album(facts.album->0@),
        forall|a: int, b: int|
            0 <= a < b < facts.photos.len() ==> (#[trigger] facts.photos@[a]).photo_id@ != (
            #[trigger] facts.photos@[b]).photo_id@,
    ensures
        grown(facts.album->0, facts.photos@, photo_ids@, change.next),
        change.result.album_id@ == album_id@,
        change.result.added_photo_ids.len() == change.next.members.len()
            - facts.album->0.members.len(),
        change.result.added_photo_ids.len() + change.result.already_member_photo_ids.len()
            == photo_ids.len(),
        forall|k: int|
            0 <= k < change.result.added_photo_ids.len() ==> (
            #[trigger] change.result.added_photo_ids@[k])@
                == change.next.members@[facts.album->0.members.len() + k].photo_id@,
        change.result.removed_photo_ids.len() == 0,
        change.result.already_absent_photo_ids.len() == 0,
{
    let before = facts.album->0;
    let ids = texts(photo_ids@);
    let current = member_ids(before@.members);
    lemma_grown(before, facts.photos@, photo_ids@, change.next);
    lemma_new_members(before@.members, facts.photos@, ids);
    law_add_partitions_the_request(current, ids);
    assert(before@.members.len() == before.members.len());
    assert(change.next@.members.len() == change.next.members.len());
    assert(texts(change.result.added_photo_ids@).len() == change.result.added_photo_ids.len());
    assert(texts(change.result.already_member_photo_ids@).len()
        == change.result.already_member_photo_ids.len());
    let n = before.members.len() as int;
    assert forall|k: int| 0 <= k < change.result.added_photo_ids.len() implies (
    #[trigger] change.result.added_photo_ids@[k])@ == change.next.members@[n + k].photo_id@ by {
        assert(texts(change.result.added_photo_ids@)[k] == change.result.added_photo_ids@[k]@);
        assert(change.next@.members[n + k] == change.next.members@[n + k]@);
        assert(change.next@.members[n + k].photo_id == added_ids(current, ids)[n + k - n]);
    }
}

/// Taking Photos from an Album by such a request leaves exactly the members that it does
/// not name, tells those that it took, and loses a position at one of them.
pub proof fn law_membership_requests_remove_photos(
    facts: AlbumFacts,
    album_id: String,
    photo_ids: Vec<String>,
    change: MembershipChange,
    id: Seq<char>,
)
    requires
        membership_decided(
            facts,
            AlbumMembershipMutation::RemoveAdded { album_id, photo_ids },
            Ok(change),
        ),
        facts.album is Some,
    ensures
        ({
            let before = facts.album->0;
            let was = exists|m: int|
                0 <= m < before.members.len() && (#[trigger] before.members@[m]).photo_id@ == id;
            let named = exists|k: int|
                0 <= k < photo_ids.len() && (#[trigger] photo_ids@[k])@ == id;
            let stays = exists|m: int|
                0 <= m < change.next.members.len() && (
                #[trigger] change.next.members@[m]).photo_id@ == id;
            let told = exists|k: int|
                0 <= k < change.result.removed_photo_ids.len() && (
                #[trigger] change.result.removed_photo_ids@[k])@ == id;
            &&& same_head(before, change.next)
            &&& stays <==> was && !named
            &&& told <==> was && named
            &&& opt_text(before.saved_photo_id) == Some(id) && was && named
                ==> change.next.saved_photo_id is None
            &&& opt_text(before.saved_photo_id) == Some(id) && !(was && named) ==> opt_text(
                change.next.saved_photo_id,
            ) == Some(id)
            &&& change.result.added_photo_ids.len() == 0
            &&& change.result.already_member_photo_ids.len() == 0
        }),
{
    let before = facts.album->0;
    let ids = texts(photo_ids@);
    let current = member_ids(before@.members);
    let gone = removed_ids(current, ids);
    let after = member_ids(change.next@.members);
    lemma_remaining_members(before@.members, ids, id);
    lemma_removed_ids(current, ids, id);
    assert(before@.members.len() == before.members.len());
    assert(change.next@.members.len() == change.next.members.len());
    if current.contains(id) {
        let m = choose|m: int| 0 <= m < current.len() && current[m] == id;
        assert(before@.members[m] == before.members@[m]@);
        assert(before.members@[m].photo_id@ == id);
    }
    if exists|m: int|
        0 <= m < before.members.len() && (#[trigger] before.members@[m]).photo_id@ == id {
        let m = choose|m: int|
            0 <= m < before.members.len() && (#[trigger] before.members@[m]).photo_id@ == id;
        assert(before@.members[m] == before.members@[m]@);
        assert(current[m] == id);
    }
    if ids.contains(id) {
        let k = choose|k: int| 0 <= k < ids.len() && ids[k] == id;
        assert(photo_ids@[k]@ == id);
    }
    if exists|k: int| 0 <= k < photo_ids.len() && (#[trigger] photo_ids@[k])@ == id {
        let k = choose|k: int| 0 <= k < photo_ids.len() && (#[trigger] photo_ids@[k])@ == id;
        assert(ids[k] == id);
    }
    if after.contains(id) {
        let m = choose|m: int| 0 <= m < after.len() && after[m] == id;
        assert(change.next@.members[m] == change.next.members@[m]@);
        assert(change.next.members@[m].photo_id@ == id);
    }
    if exists|m: int|
        0 <= m < change.next.members.len() && (#[trigger] change.next.members@[m]).photo_id@
            == id {
        let m = choose|m: int|
            0 <= m < change.next.members.len() && (#[trigger] change.next.members@[m]).photo_id@
                == id;
        assert(change.next@.members[m] == change.next.members@[m]@);
        assert(after[m] == id);
    }
    let list = change.result.removed_photo_ids@;
    if gone.contains(id) {
        let k = choose|k: int| 0 <= k < gone.len() && gone[k] == id;
        assert(texts(list)[k] == list[k]@);
    }
    if exists|k: int| 0 <= k < list.len() && (#[trigger] list[k])@ == id {
        let k = choose|k: int| 0 <= k < list.len() && (#[trigger] list[k])@ == id;
        assert(texts(list)[k] == id);
    }
}

proof fn lemma_removed_ids(current: Seq<Seq<char>>, ids: Seq<Seq<char>>, id: Seq<char>)
    ensures
        removed_ids(current, ids).contains(id) <==> current.contains(id) && ids.contains(id),
    decreases ids.len(),
{
    if ids.len() > 0 {
        let front = ids.drop_last();
        let last = ids.last();
        lemma_removed_ids(current, front, id);
        lemma_removed_ids(current, front, last);
        let before = removed_ids(current, front);
        assert(ids =~= front.push(last));
        assert(ids.contains(id) <==> front.contains(id) || last == id) by {
            if front.contains(id) {
                let i = choose|i: int| 0 <= i < front.len() && front[i] == id;
                assert(ids[i] == id);
            }
            if last == id {
                assert(ids[ids.len() - 1] == id);
            }
            if ids.contains(id) {
                let i = choose|i: int| 0 <= i < ids.len() && ids[i] == id;
                if i < front.len() {
                    assert(front[i] == id);
                }
            }
        }
        assert(before.push(last).contains(id) <==> before.contains(id) || last == id) by {
            let all = before.push(last);
            if before.contains(id) {
                let i = choose|i: int| 0 <= i < before.len() && before[i] == id;
                assert(all[i] == id);
            }
            if last == id {
                assert(all[before.len() as int] == id);
            }
            if all.contains(id) {
                let i = choose|i: int| 0 <= i < all.len() && all[i] == id;
                if i < before.len() {
                    assert(before[i] == id);
                }
            }
        }
    }
}

/// A checked change of an Album that is not there is told so, and one that names another
/// version than the Album has is told the version that it has.
pub proof fn law_checked_changes_name_the_version(
    versions: MutationVersions,
    facts: AlbumFacts,
    mutation: CheckedAlbumMutation,
    result: Result<CheckedAlbumChange, AlbumWriteError>,
)
    requires
        checked_album_decided(versions, facts, mutation, result),
    ensures
        ({
            let (id, expected) = match mutation {
                CheckedAlbumMutation::Rename { album_id, expected_version, .. } => (
                    album_id@,
                    expected_version@,
                ),
                CheckedAlbumMutation::Delete { album_id, expected_version } => (
                    album_id@,
                    expected_version@,
                ),
                CheckedAlbumMutation::AddMembers { album_id, expected_version, .. } => (
                    album_id@,
                    expected_version@,
                ),
                CheckedAlbumMutation::RemoveMembers { album_id, expected_version, .. } => (
                    album_id@,
                    expected_version@,
                ),
                CheckedAlbumMutation::Reorder { album_id, expected_version, .. } => (
                    album_id@,
                    expected_version@,
                ),
            };
            &&& facts.album is None ==> result is Err && result->Err_0 is AlbumNotFound
                && result->Err_0->AlbumNotFound_album_id@ == id
            &&& facts.album is Some && expected != versions.album_token(id) ==> result is Err
                && result->Err_0 is VersionConflict && result->Err_0->VersionConflict_album_id@
                == id && result->Err_0->VersionConflict_current_version@ == versions.album_token(
                id,
            )
            &&& result is Ok ==> facts.album is Some && expected == versions.album_token(id)
                && result->Ok_0.album_id@ == id
        }),
{
}

/// A checked rename tells whether the name changed, moves the version only then, and
/// leaves everything else of the Album. A name that another Album has is told with that
/// Album.
pub proof fn law_checked_renames_change_the_name(
    versions: MutationVersions,
    facts: AlbumFacts,
    album_id: String,
    name: String,
    expected_version: String,
    result: Result<CheckedAlbumChange, AlbumWriteError>,
)
    requires
        checked_album_decided(
            versions,
            facts,
            CheckedAlbumMutation::Rename { album_id, name, expected_version },
            result,
        ),
    ensures
        result is Ok ==> {
            let before = facts.album->0;
            let change = result->Ok_0;
            let after = change.next->0;
            let told = change.result->Renamed_album;
            &&& change.next is Some
            &&& after.id@ == before.id@
            &&& after.name@ == name@
            &&& after.created_at == before.created_at
            &&& same_members(before, after)
            &&& opt_text(after.saved_photo_id) == opt_text(before.saved_photo_id)
            &&& !change.deleted
            &&& change.advance == (before.name@ != name@)
            &&& change.result is Renamed
            &&& change.result->renamed == (before.name@ != name@)
            &&& told.id@ == before.id@
            &&& told.name@ == name@
            &&& told.photo_count == shown_count(before@.members)
            &&& told.has_saved_position == before.saved_photo_id is Some
            &&& told.album_version@ == versions.album_token(album_id@) <==> before.name@ == name@
        },
        result is Err && result->Err_0 is NameConflict ==> {
            &&& result->Err_0->name@ == name@
            &&& exists|i: int|
                0 <= i < facts.names.len() && (#[trigger] facts.names@[i]).id@
                    == result->Err_0->NameConflict_album_id@ && stored_name(facts.names@[i].name@)
                    == stored_name(name@) && facts.names@[i].id@ != album_id@
        },
{
    if result is Ok {
        let before = facts.album->0;
        let after = result->Ok_0.next->0;
        assert(opt_album(result->Ok_0.next) == Some(after@));
        lemma_same_members(before, after);
        lemma_version_moves(versions, album_id@, before.name@ != name@);
    }
    if result is Err && result->Err_0 is NameConflict {
        lemma_first_named(facts.names@, name@);
    }
}

proof fn lemma_version_moves(versions: MutationVersions, id: Seq<char>, advance: bool)
    ensures
        version_after(versions, id, advance) == versions.album_token(id) <==> !advance,
{
    if version_after(versions, id, advance) == versions.album_token(id) {
        law_tokens_are_unique(
            versions.epoch@,
            "album"@,
            id,
            (count_of(versions.album@, id) + if advance {
                1int
            } else {
                0int
            }) as nat,
            id,
            count_of(versions.album@, id) as nat,
        );
    }
}

proof fn lemma_first_named(names: Seq<AlbumName>, name: Seq<char>)
    ensures
        first_named(names, name) is Some ==> exists|i: int|
            0 <= i < names.len() && (#[trigger] names[i]).id@ == first_named(names, name)->0
                && stored_name(names[i].name@) == stored_name(name),
        first_named(names, name) is None ==> forall|i: int|
            0 <= i < names.len() ==> stored_name((#[trigger] names[i]).name@) != stored_name(name),
    decreases names.len(),
{
    if names.len() > 0 {
        let front = names.drop_last();
        lemma_first_named(front, name);
        if first_named(front, name) is Some {
            let i = choose|i: int|
                0 <= i < front.len() && (#[trigger] front[i]).id@ == first_named(front, name)->0
                    && stored_name(front[i].name@) == stored_name(name);
            assert(names[i] == front[i]);
        } else if first_named(names, name) is Some {
            assert(names[names.len() - 1].id@ == first_named(names, name)->0);
        } else {
            assert forall|i: int| 0 <= i < names.len() implies stored_name(
                (#[trigger] names[i]).name@,
            ) != stored_name(name) by {
                if i < front.len() {
                    assert(front[i] == names[i]);
                }
            }
        }
    }
}

/// A checked deletion of an Album in the version named is done: the Album is gone.
pub proof fn law_checked_deletions_are_done(
    versions: MutationVersions,
    facts: AlbumFacts,
    album_id: String,
    expected_version: String,
    result: Result<CheckedAlbumChange, AlbumWriteError>,
)
    requires
        checked_album_decided(
            versions,
            facts,
            CheckedAlbumMutation::Delete { album_id, expected_version },
            result,
        ),
        facts.album is Some,
        versions.album_token(album_id@) == expected_version@,
    ensures
        result is Ok,
        result->Ok_0.next is None,
        result->Ok_0.deleted,
        !result->Ok_0.advance,
        result->Ok_0.result is Deleted,
        result->Ok_0.result->Deleted_album_id@ == album_id@,
{
}

/// A checked addition does to the Album what adding does, tells the Photos that were new
/// and those that were members, and moves the version only where one was new. A Photo
/// that is not known is told.
pub proof fn law_checked_additions_grow_the_album(
    versions: MutationVersions,
    facts: AlbumFacts,
    album_id: String,
    photo_ids: Vec<String>,
    expected_version: String,
    result: Result<CheckedAlbumChange, AlbumWriteError>,
)
    requires
        checked_album_decided(
            versions,
            facts,
            CheckedAlbumMutation::AddMembers { album_id, photo_ids, expected_version },
            result,
        ),
        facts.album is Some,
        sound_album(facts.album->0@),
        texts(photo_ids@).no_duplicates(),
        forall|a: int, b: int|
            0 <= a < b < facts.photos.len() ==> (#[trigger] facts.photos@[a]).photo_id@ != (
            #[trigger] facts.photos@[b]).photo_id@,
    ensures
        result is Ok ==> {
            let before = facts.album->0;
            let change = result->Ok_0;
            let after = change.next->0;
            let told = change.result->Added_album;
            let added = change.result->added_photo_ids;
            &&& change.next is Some
            &&& grown(before, facts.photos@, photo_ids@, after)
            &&& change.result is Added
            &&& added.len() == after.members.len() - before.members.len()
            &&& added.len() + change.result->already_member_photo_ids.len() == photo_ids.len()
            &&& forall|k: int|
                0 <= k < added.len() ==> (#[trigger] added@[k])@
                    == after.members@[before.members.len() + k].photo_id@
            &&& change.advance == (added.len() > 0)
            &&& !change.deleted
            &&& told.id@ == before.id@
            &&& told.name@ == before.name@
            &&& told.photo_count == shown_count(after@.members)
            &&& told.has_saved_position == before.saved_photo_id is Some
            &&& told.album_version@ == versions.album_token(album_id@) <==> added.len() == 0
        },
        result is Err && result->Err_0 is PhotoNotFound ==> forall|p: int|
            0 <= p < facts.photos.len() ==> (#[trigger] facts.photos@[p]).photo_id@
                != result->Err_0->PhotoNotFound_photo_id@,
{
    let before = facts.album->0;
    let ids = texts(photo_ids@);
    let current = member_ids(before@.members);
    if result is Ok {
        let change = result->Ok_0;
        let after = change.next->0;
        let added = change.result->added_photo_ids;
        let inner = choose|inner: Result<MembershipChange, MutationError>|
            #[trigger] membership_decided(
                facts,
                AlbumMembershipMutation::Add { album_id, photo_ids },
                inner,
            ) && inner is Ok && opt_album(change.next) == Some(inner->Ok_0.next@)
                && change.result->Added_album.photo_count == shown_count(
                inner->Ok_0.next@.members,
            );
        assert(after@ == inner->Ok_0.next@);
        lemma_grown(before, facts.photos@, photo_ids@, after);
        law_checked_lists_agree(current, ids);
        law_add_partitions_the_request(current, ids);
        lemma_new_members(before@.members, facts.photos@, ids);
        assert(texts(added@).len() == added.len());
        assert(texts(change.result->already_member_photo_ids@).len()
            == change.result->already_member_photo_ids.len());
        let n = before.members.len() as int;
        assert(before@.members.len() == n);
        assert(after@.members.len() == after.members.len());
        assert forall|k: int| 0 <= k < added.len() implies (#[trigger] added@[k])@
            == after.members@[n + k].photo_id@ by {
            assert(texts(added@)[k] == added@[k]@);
            assert(after@.members[n + k] == after.members@[n + k]@);
            assert(after@.members[n + k].photo_id == added_ids(current, ids)[n + k - n]);
        }
        lemma_version_moves(versions, album_id@, added.len() > 0);
    } else if result->Err_0 is PhotoNotFound {
        lemma_first_unknown(facts.photos@, ids);
        let id = result->Err_0->PhotoNotFound_photo_id@;
        assert forall|p: int| 0 <= p < facts.photos.len() implies (
        #[trigger] facts.photos@[p]).photo_id@ != id by {
            assert(presence_ids(facts.photos@)[p] == facts.photos@[p].photo_id@);
        }
    }
}

proof fn lemma_first_unknown(photos: Seq<PhotoPresence>, ids: Seq<Seq<char>>)
    ensures
        first_unknown(photos, ids) is Some ==> !known(photos, first_unknown(photos, ids)->0)
            && ids.contains(first_unknown(photos, ids)->0),
    decreases ids.len(),
{
    if ids.len() > 0 {
        let front = ids.drop_last();
        lemma_first_unknown(photos, front);
        if first_unknown(photos, front) is Some {
            let i = choose|i: int|
                0 <= i < front.len() && front[i] == first_unknown(photos, front)->0;
            assert(ids[i] == front[i]);
        } else if first_unknown(photos, ids) is Some {
            assert(ids[ids.len() - 1] == first_unknown(photos, ids)->0);
        }
    }
}

/// A checked removal leaves exactly the members that it does not name, tells those that
/// it took and the position that is left, and moves the version only where it took one.
pub proof fn law_checked_removals_shrink_the_album(
    versions: MutationVersions,
    facts: AlbumFacts,
    album_id: String,
    photo_ids: Vec<String>,
    expected_version: String,
    result: Result<CheckedAlbumChange, AlbumWriteError>,
    id: Seq<char>,
)
    requires
        checked_album_decided(
            versions,
            facts,
            CheckedAlbumMutation::RemoveMembers { album_id, photo_ids, expected_version },
            result,
        ),
        texts(photo_ids@).no_duplicates(),
        result is Ok,
    ensures
        ({
            let before = facts.album->0;
            let change = result->Ok_0;
            let after = change.next->0;
            let told = change.result->Removed_album;
            let removed = change.result->removed_photo_ids;
            let was = exists|m: int|
                0 <= m < before.members.len() && (#[trigger] before.members@[m]).photo_id@ == id;
            let named = exists|k: int|
                0 <= k < photo_ids.len() && (#[trigger] photo_ids@[k])@ == id;
            let stays = exists|m: int|
                0 <= m < after.members.len() && (#[trigger] after.members@[m]).photo_id@ == id;
            let listed = exists|k: int|
                0 <= k < removed.len() && (#[trigger] removed@[k])@ == id;
            &&& change.next is Some
            &&& same_head(before, after)
            &&& stays <==> was && !named
            &&& listed <==> was && named
            &&& removed.len() + change.result->already_absent_photo_ids.len() == photo_ids.len()
            &&& opt_text(change.result->saved_photo_id) == opt_text(after.saved_photo_id)
            &&& opt_text(before.saved_photo_id) == Some(id) && was && named
                ==> after.saved_photo_id is None
            &&& opt_text(before.saved_photo_id) == Some(id) && !(was && named) ==> opt_text(
                after.saved_photo_id,
            ) == Some(id)
            &&& change.result is Removed
            &&& change.advance == (removed.len() > 0)
            &&& !change.deleted
            &&& told.id@ == before.id@
            &&& told.name@ == before.name@
            &&& told.photo_count == shown_count(after@.members)
            &&& told.has_saved_position == after.saved_photo_id is Some
            &&& told.album_version@ == versions.album_token(album_id@) <==> removed.len() == 0
        }),
{
    let before = facts.album->0;
    let ids = texts(photo_ids@);
    let current = member_ids(before@.members);
    let change = result->Ok_0;
    let after = change.next->0;
    let removed = change.result->removed_photo_ids;
    let inner = choose|inner: Result<MembershipChange, MutationError>|
        #[trigger] membership_decided(
            facts,
            AlbumMembershipMutation::RemoveAdded { album_id, photo_ids },
            inner,
        ) && inner is Ok && opt_album(change.next) == Some(inner->Ok_0.next@)
            && change.result->Removed_album.photo_count == shown_count(inner->Ok_0.next@.members);
    let next = inner->Ok_0.next;
    assert(after@ == next@);
    law_membership_requests_remove_photos(facts, album_id, photo_ids, inner->Ok_0, id);
    law_checked_lists_agree(current, ids);
    law_add_partitions_the_request(current, ids);
    assert(texts(removed@).len() == removed.len());
    assert(texts(change.result->already_absent_photo_ids@).len()
        == change.result->already_absent_photo_ids.len());
    lemma_same_members(next, after);
    let told = inner->Ok_0.result.removed_photo_ids;
    assert(texts(told@) == texts(removed@));
    assert(texts(told@).len() == told.len());
    assert forall|k: int| 0 <= k < removed.len() implies (#[trigger] removed@[k])@ == told@[k]@ by {
        assert(texts(removed@)[k] == removed@[k]@);
        assert(texts(told@)[k] == told@[k]@);
    }
    if exists|k: int| 0 <= k < told.len() && (#[trigger] told@[k])@ == id {
        let k = choose|k: int| 0 <= k < told.len() && (#[trigger] told@[k])@ == id;
        assert(removed@[k]@ == id);
    }
    if exists|k: int| 0 <= k < removed.len() && (#[trigger] removed@[k])@ == id {
        let k = choose|k: int| 0 <= k < removed.len() && (#[trigger] removed@[k])@ == id;
        assert(told@[k]@ == id);
    }
    if exists|m: int| 0 <= m < next.members.len() && (#[trigger] next.members@[m]).photo_id@ == id {
        let m = choose|m: int|
            0 <= m < next.members.len() && (#[trigger] next.members@[m]).photo_id@ == id;
        assert(after.members@[m].photo_id@ == id);
    }
    if exists|m: int|
        0 <= m < after.members.len() && (#[trigger] after.members@[m]).photo_id@ == id {
        let m = choose|m: int|
            0 <= m < after.members.len() && (#[trigger] after.members@[m]).photo_id@ == id;
        assert(next.members@[m].photo_id@ == id);
    }
    lemma_version_moves(versions, album_id@, removed.len() > 0);
}

/// A checked reordering puts the members in the order of the request, tells whether the
/// order changed, and moves the version only then. An Album of more than a hundred
/// members is told as too large, and a request for other Photos than the members as a
/// conflict.
pub proof fn law_checked_reorderings_stand_as_asked(
    versions: MutationVersions,
    facts: AlbumFacts,
    album_id: String,
    photo_ids: Vec<String>,
    expected_version: String,
    result: Result<CheckedAlbumChange, AlbumWriteError>,
    k: int,
)
    requires
        checked_album_decided(
            versions,
            facts,
            CheckedAlbumMutation::Reorder { album_id, photo_ids, expected_version },
            result,
        ),
        facts.album is Some,
        sound_album(facts.album->0@),
    ensures
        ({
            let before = facts.album->0;
            let change = result->Ok_0;
            let after = change.next->0;
            let told = change.result->Reordered_album;
            let same = before.members.len() == photo_ids.len() && forall|j: int|
                0 <= j < photo_ids.len() ==> (#[trigger] photo_ids@[j])@
                    == before.members@[j].photo_id@;
            &&& result is Ok ==> {
                &&& before.members.len() <= 100
                &&& change.next is Some
                &&& same_head(before, after)
                &&& opt_text(after.saved_photo_id) == opt_text(before.saved_photo_id)
                &&& after.members.len() == before.members.len()
                &&& after.members.len() == photo_ids.len()
                &&& 0 <= k < photo_ids.len() ==> after.members@[k].photo_id@ == photo_ids@[k]@
                    && after.members@[k].position == k
                &&& change.result is Reordered
                &&& change.result->ordered_photo_ids.len() == photo_ids.len()
                &&& 0 <= k < photo_ids.len() ==> change.result->ordered_photo_ids@[k]@
                    == photo_ids@[k]@
                &&& change.result->reordered == !same
                &&& change.advance == !same
                &&& !change.deleted
                &&& told.id@ == before.id@
                &&& told.name@ == before.name@
                &&& told.photo_count == shown_count(before@.members)
                &&& told.has_saved_position == before.saved_photo_id is Some
                &&& told.album_version@ == versions.album_token(album_id@) <==> same
            }
            &&& result is Err && result->Err_0 is LimitExceeded ==> before.members.len() > 100
                && result->Err_0->limit == 100 && result->Err_0->actual == before.members.len()
            &&& result is Err && result->Err_0 is MembershipConflict
                ==> result->Err_0->MembershipConflict_album_id@ == album_id@
                && result->Err_0->MembershipConflict_current_version@ == versions.album_token(
                album_id@,
            )
        }),
{
    let before = facts.album->0;
    let ids = texts(photo_ids@);
    let current = member_ids(before@.members);
    assert(before@.members.len() == before.members.len());
    if result is Ok {
        let change = result->Ok_0;
        let after = change.next->0;
        assert(opt_album(change.next) == Some(after@));
        assert(after@.members.len() == after.members.len());
        law_reorder_keeps_the_members(before@.members, ids);
        assert(texts(change.result->ordered_photo_ids@).len()
            == change.result->ordered_photo_ids.len());
        if 0 <= k < photo_ids.len() {
            assert(after@.members[k] == after.members@[k]@);
            assert(ids[k] == photo_ids@[k]@);
            assert(texts(change.result->ordered_photo_ids@)[k]
                == change.result->ordered_photo_ids@[k]@);
        }
        let same = before.members.len() == photo_ids.len() && forall|j: int|
            0 <= j < photo_ids.len() ==> (#[trigger] photo_ids@[j])@
                == before.members@[j].photo_id@;
        if same {
            assert forall|j: int| 0 <= j < ids.len() implies current[j] == ids[j] by {
                assert(ids[j] == photo_ids@[j]@);
                assert(before@.members[j] == before.members@[j]@);
            }
            assert(current =~= ids);
        }
        if current == ids {
            assert forall|j: int| 0 <= j < photo_ids.len() implies (#[trigger] photo_ids@[j])@
                == before.members@[j].photo_id@ by {
                assert(ids[j] == photo_ids@[j]@);
                assert(current[j] == ids[j]);
                assert(before@.members[j] == before.members@[j]@);
            }
        }
        lemma_version_moves(versions, album_id@, current != ids);
    }
}

/// The Photos that an Album shows are the members that were not removed: one member more
/// adds one, or nothing where it was removed.
pub proof fn law_shown_photos_are_counted(members: Seq<MemberView>, member: MemberView)
    ensures
        shown_count(Seq::<MemberView>::empty()) == 0,
        member.removed ==> shown_count(members.push(member)) == shown_count(members),
        !member.removed ==> shown_count(members.push(member)) == shown_count(members) + 1,
{
    assert(members.push(member).drop_last() =~= members);
    assert(members.push(member).last() == member);
}

/// An Album is told as it is stored: by its identity and its name, with the number of
/// Photos that it shows, whether it has a position, and its version.
pub proof fn law_albums_are_told_as_stored(
    summary: Option<AlbumSummary>,
    versions: MutationVersions,
    album: Option<AlbumState>,
)
    requires
        tells_read(summary, versions, album),
    ensures
        summary is Some <==> album is Some,
        album is Some ==> {
            &&& summary->0.id@ == album->0.id@
            &&& summary->0.name@ == album->0.name@
            &&& summary->0.photo_count == shown_count(album->0@.members)
            &&& summary->0.has_saved_position == album->0.saved_photo_id is Some
            &&& summary->0.album_version@ == versions.album_token(album->0.id@)
        },
{
}

/// A committed change of an Album moves its version by one where it changed something,
/// forgets the version of an Album that is gone, and touches no other version; a change
/// that is not committed touches none, and is answered by its error.
pub proof fn law_committed_changes_move_one_version(
    before: MutationVersions,
    change: CheckedAlbumChange,
    committed: Result<(), MutationError>,
    after: MutationVersions,
    result: Result<CheckedAlbumMutationResult, AlbumWriteError>,
    other: Seq<char>,
)
    requires
        checked_album_settled(before, change, committed, after, result),
    ensures
        ({
            let id = change.album_id@;
            &&& after.epoch == before.epoch
            &&& after.photo@ == before.photo@
            &&& committed is Err ==> after.album@ == before.album@ && result is Err
            &&& committed is Ok && change.deleted ==> count_of(after.album@, id) == 0 && result
                == Ok::<CheckedAlbumMutationResult, AlbumWriteError>(change.result)
            &&& committed is Ok && !change.deleted && change.advance && count_of(before.album@, id)
                < u64::MAX ==> count_of(after.album@, id) == count_of(before.album@, id) + 1
                && result == Ok::<CheckedAlbumMutationResult, AlbumWriteError>(change.result)
            &&& committed is Ok && !change.deleted && !change.advance ==> after.album@
                == before.album@ && result == Ok::<CheckedAlbumMutationResult, AlbumWriteError>(
                change.result,
            )
            &&& other != id ==> count_of(after.album@, other) == count_of(before.album@, other)
        }),
{
}

/// A committed membership request moves the version of the Album by one where it added
/// or took a Photo, and otherwise not.
pub proof fn law_committed_memberships_move_the_version(
    before: MutationVersions,
    change: MembershipChange,
    committed: Result<(), MutationError>,
    after: MutationVersions,
    result: Result<AlbumMembershipResult, MutationError>,
    other: Seq<char>,
)
    requires
        membership_settled(before, change, committed, after, result),
    ensures
        ({
            let id = change.result.album_id@;
            let moved = change.result.added_photo_ids.len() > 0
                || change.result.removed_photo_ids.len() > 0;
            &&& after.epoch == before.epoch
            &&& after.photo@ == before.photo@
            &&& committed is Err ==> after.album@ == before.album@ && result == Err::<
                AlbumMembershipResult,
                MutationError,
            >(committed->Err_0)
            &&& committed is Ok ==> result == Ok::<AlbumMembershipResult, MutationError>(
                change.result,
            )
            &&& committed is Ok && moved && count_of(before.album@, id) < u64::MAX ==> count_of(
                after.album@,
                id,
            ) == count_of(before.album@, id) + 1
            &&& committed is Ok && !moved ==> after.album@ == before.album@
            &&& other != id ==> count_of(after.album@, other) == count_of(before.album@, other)
        }),
{
}

/// A committed change that was planned moves the version as planned.
pub proof fn law_committed_plans_move_the_version(
    before: MutationVersions,
    planned: PlannedAlbumChange,
    committed: Result<(), MutationError>,
    after: MutationVersions,
    result: Result<AlbumMutationResult, MutationError>,
    other: Seq<char>,
)
    requires
        album_settled(before, planned, committed, after, result),
    ensures
        ({
            let id = planned.plan.album_id@;
            &&& after.epoch == before.epoch
            &&& after.photo@ == before.photo@
            &&& committed is Err ==> after.album@ == before.album@ && result == Err::<
                AlbumMutationResult,
                MutationError,
            >(committed->Err_0)
            &&& committed is Ok ==> result == Ok::<AlbumMutationResult, MutationError>(
                planned.change.result,
            )
            &&& committed is Ok && planned.plan.deleted ==> count_of(after.album@, id) == 0
            &&& committed is Ok && !planned.plan.deleted && planned.plan.advance && count_of(
                before.album@,
                id,
            ) < u64::MAX ==> count_of(after.album@, id) == count_of(before.album@, id) + 1
            &&& committed is Ok && !planned.plan.deleted && !planned.plan.advance ==> after.album@
                == before.album@
            &&& other != id ==> count_of(after.album@, other) == count_of(before.album@, other)
        }),
{
}

/// A planned change of an Album says whose version it moves and whether it does: a name
/// that differs, members that are new, a member that leaves and another order move it,
/// and nothing else does. Only a deletion forgets it. A version that is spent refuses the
/// change.
pub proof fn law_plans_say_which_version_moves(
    versions: MutationVersions,
    facts: AlbumFacts,
    mutation: AlbumMutation,
    new_id: String,
    now: i64,
    planned: PlannedAlbumChange,
    album: AlbumState,
)
    requires
        call_ensures(
            plan_album_mutation,
            (&versions, &facts, &mutation, &new_id, now),
            Ok(planned),
        ),
        facts.album == Some(album),
    ensures
        planned.plan.deleted <==> mutation is Delete,
        mutation matches AlbumMutation::Create { .. } ==> !planned.plan.advance,
        mutation matches AlbumMutation::Rename { album_id, name } ==> planned.plan.album_id@
            == album_id@ && (planned.plan.advance <==> album.name@ != name@),
        mutation matches AlbumMutation::Delete { album_id } ==> planned.plan.album_id@ == album_id@
            && !planned.plan.advance,
        mutation matches AlbumMutation::AddMembers { album_id, photo_ids }
            ==> planned.plan.album_id@ == album_id@ && (planned.plan.advance <==> exists|i: int|
            0 <= i < photo_ids.len() && !member_ids(album@.members).contains(
                (#[trigger] photo_ids@[i])@,
            )),
        mutation matches AlbumMutation::RemoveMember { album_id, .. } ==> planned.plan.album_id@
            == album_id@ && planned.plan.advance,
        mutation matches AlbumMutation::Reorder { album_id, photo_ids } ==> planned.plan.album_id@
            == album_id@ && (planned.plan.advance <==> member_ids(album@.members) != texts(
            photo_ids@,
        )),
        mutation matches AlbumMutation::SetProgress { album_id, .. } ==> planned.plan.album_id@
            == album_id@ && !planned.plan.advance,
        planned.plan.advance ==> count_of(versions.album@, planned.plan.album_id@) < u64::MAX,
{
    if let AlbumMutation::AddMembers { album_id, photo_ids } = mutation {
        let current = member_ids(album@.members);
        if some_new(current, texts(photo_ids@)) {
            let i = choose|i: int|
                0 <= i < texts(photo_ids@).len() && !current.contains(
                    #[trigger] texts(photo_ids@)[i],
                );
            assert(!current.contains(photo_ids@[i]@));
        }
        if exists|i: int|
            0 <= i < photo_ids.len() && !current.contains((#[trigger] photo_ids@[i])@) {
            let i = choose|i: int|
                0 <= i < photo_ids.len() && !current.contains((#[trigger] photo_ids@[i])@);
            assert(!current.contains(texts(photo_ids@)[i]));
        }
    }
}

/// An Album that is created with a check stands empty under its name, and is told so. A
/// name that another Album has is refused with that Album.
pub proof fn law_checked_creations_are_told(
    versions: MutationVersions,
    facts: AlbumFacts,
    name: String,
    new_id: String,
    now: i64,
    result: Result<(AlbumState, AlbumCreationResult), AlbumWriteError>,
)
    requires
        call_ensures(create_album_checked, (&versions, &facts, name, &new_id, now), result),
    ensures
        result matches Ok((next, created)) ==> {
            &&& next.id@ == new_id@
            &&& next.name@ == name@
            &&& next.created_at == now
            &&& next.members.len() == 0
            &&& next.saved_photo_id is None
            &&& created.album.id@ == new_id@
            &&& created.album.name@ == name@
            &&& created.album.photo_count == 0
            &&& !created.album.has_saved_position
            &&& created.album.album_version@ == versions.album_token(new_id@)
            &&& 1 <= stored_length(name@) <= 120
            &&& forall|i: int|
                0 <= i < facts.names.len() ==> (#[trigger] facts.names@[i]).id@ != new_id@
                    && stored_name(facts.names@[i].name@) != stored_name(name@)
        },
        result matches Err(AlbumWriteError::NameConflict { name: told, album_id }) ==> told@
            == name@ && exists|i: int|
            0 <= i < facts.names.len() && (#[trigger] facts.names@[i]).id@ == album_id@
                && stored_name(facts.names@[i].name@) == stored_name(name@),
        (exists|i: int|
            0 <= i < facts.names.len() && stored_name((#[trigger] facts.names@[i]).name@)
                == stored_name(name@)) ==> result is Err && result->Err_0 is NameConflict,
{
    lemma_first_named_found(facts.names@, name@);
    if let Ok((next, created)) = result {
        assert(next@.members.len() == next.members.len());
        assert(opt_text(next.saved_photo_id) is None);
        assert(shown_count(Seq::empty()) == 0);
    }
}

} // verus!
