//! What an Album change does to the stored state and what it is answered.
use crate::album::{
    is_storable_name, membership_target, same_stored_name, storable_name, stored_name,
    AlbumMembershipMutation, AlbumMembershipResult, AlbumMutation, AlbumMutationResult,
};
use crate::album_state::{
    absent_ids, add_refusal, added_ids, all_known, already_ids, clone_members, dense, drop_member,
    drop_members, extend_members, find_unknown, index_of_member, is_dense, member_ids, members_are,
    members_view, order_members, ordered_as, removed_ids, reordered, same_set, saved_after,
    with_members, without_member, without_members, AlbumState, AlbumView, Member, MemberView,
    PhotoPresence,
};
use crate::error::MutationError;
use crate::text::{clone_opt_text, contains_text, distinct_texts, opt_text, same_text, texts};
use vstd::prelude::*;
use vstd::string::*;

verus! {

/// An Album's identity and name.
#[derive(Clone, Debug, PartialEq, Eq)]
pub struct AlbumName {
    pub id: String,
    pub name: String,
}

/// What is read before an Album change is decided: the addressed Album, the
/// names of all Albums, and those of the request's Photos that are known.
#[derive(Clone, Debug, PartialEq, Eq)]
pub struct AlbumFacts {
    pub album: Option<AlbumState>,
    pub names: Vec<AlbumName>,
    pub photos: Vec<PhotoPresence>,
}

/// A decided Album change: the stored state of the Album after it, if the Album
/// still exists, and the answer.
#[derive(Clone, Debug, PartialEq, Eq)]
pub struct AlbumChange {
    pub next: Option<AlbumState>,
    pub result: AlbumMutationResult,
}

/// What a decided Album change stands for.
pub struct AlbumDecision {
    pub next: Option<AlbumView>,
    pub album_id: Seq<char>,
    pub added: nat,
    pub already: nat,
}

/// What an optional Album stands for.
pub open spec fn opt_album(album: Option<AlbumState>) -> Option<AlbumView> {
    match album {
        Some(state) => Some(state@),
        None => None,
    }
}

impl View for AlbumChange {
    type V = AlbumDecision;

    open spec fn view(&self) -> AlbumDecision {
        AlbumDecision {
            next: opt_album(self.next),
            album_id: self.result.album_id@,
            added: self.result.added_count as nat,
            already: self.result.already_member_count as nat,
        }
    }
}

/// Whether an Album other than the given one bears a name, as the database tells
/// names apart.
pub open spec fn name_taken(
    names: Seq<AlbumName>,
    name: Seq<char>,
    except: Option<Seq<char>>,
) -> bool {
    exists|i: int|
        0 <= i < names.len() && stored_name((#[trigger] names[i]).name@) == stored_name(name)
            && Some(names[i].id@) != except
}

/// Whether an Album has an identity.
pub open spec fn id_taken(names: Seq<AlbumName>, id: Seq<char>) -> bool {
    exists|i: int| 0 <= i < names.len() && (#[trigger] names[i]).id@ == id
}

/// The first Album that bears a name, as the database tells names apart.
pub open spec fn first_named(names: Seq<AlbumName>, name: Seq<char>) -> Option<Seq<char>>
    decreases names.len(),
{
    if names.len() == 0 {
        None
    } else {
        match first_named(names.drop_last(), name) {
            Some(id) => Some(id),
            None => if stored_name(names.last().name@) == stored_name(name) {
                Some(names.last().id@)
            } else {
                None
            },
        }
    }
}

/// The Album, other than the given one, whose name stands in the way of a name.
pub open spec fn conflicting_album(
    names: Seq<AlbumName>,
    name: Seq<char>,
    except: Option<Seq<char>>,
) -> Option<Seq<char>> {
    match first_named(names, name) {
        Some(id) => if Some(id) == except {
            None
        } else {
            Some(id)
        },
        None => None,
    }
}

/// Whether a reorder names exactly the members, each once, of an Album whose
/// positions are dense and leave room to move.
pub open spec fn reorder_fits(members: Seq<MemberView>, ids: Seq<Seq<char>>) -> bool {
    &&& dense(members)
    &&& same_set(member_ids(members), ids)
    &&& ids.no_duplicates()
    &&& members.len() * 2 <= i64::MAX
}

/// What an Album change does, or why it is refused. A refusal changes nothing.
pub open spec fn decide_album(
    facts: AlbumFacts,
    mutation: AlbumMutation,
    new_id: Seq<char>,
    now: int,
) -> Result<AlbumDecision, MutationError> {
    match mutation {
        AlbumMutation::Create { name } => if id_taken(facts.names@, new_id) || name_taken(
            facts.names@,
            name@,
            None,
        ) || !storable_name(name@) {
            Err(MutationError::Conflict)
        } else {
            Ok(
                AlbumDecision {
                    next: Some(
                        AlbumView {
                            id: new_id,
                            name: name@,
                            created_at: now,
                            members: Seq::empty(),
                            saved_photo_id: None,
                        },
                    ),
                    album_id: new_id,
                    added: 0,
                    already: 0,
                },
            )
        },
        AlbumMutation::Rename { album_id, name } => match facts.album {
            None => Err(MutationError::NotFound),
            Some(album) => if name_taken(facts.names@, name@, Some(album_id@)) || !storable_name(
                name@,
            ) {
                Err(MutationError::Conflict)
            } else {
                Ok(
                    AlbumDecision {
                        next: Some(AlbumView { name: name@, ..album@ }),
                        album_id: album_id@,
                        added: 0,
                        already: 0,
                    },
                )
            },
        },
        AlbumMutation::Delete { album_id } => match facts.album {
            None => Err(MutationError::NotFound),
            Some(_) => Ok(
                AlbumDecision { next: None, album_id: album_id@, added: 0, already: 0 },
            ),
        },
        AlbumMutation::AddMembers { album_id, photo_ids } => decide_add(
            facts,
            album_id@,
            texts(photo_ids@),
        ),
        AlbumMutation::AddFolderMembers { album_id, photo_ids } => decide_add(
            facts,
            album_id@,
            texts(photo_ids@),
        ),
        AlbumMutation::RemoveMember { album_id, photo_id } => match facts.album {
            None => Err(MutationError::NotFound),
            Some(album) => if !member_ids(album@.members).contains(photo_id@) {
                Err(MutationError::NotFound)
            } else {
                Ok(
                    AlbumDecision {
                        next: Some(
                            AlbumView {
                                members: without_member(album@.members, photo_id@),
                                saved_photo_id: saved_after(
                                    album@.saved_photo_id,
                                    seq![photo_id@],
                                ),
                                ..album@
                            },
                        ),
                        album_id: album_id@,
                        added: 0,
                        already: 0,
                    },
                )
            },
        },
        AlbumMutation::Reorder { album_id, photo_ids } => match facts.album {
            None => Err(MutationError::NotFound),
            Some(album) => if !reorder_fits(album@.members, texts(photo_ids@)) {
                Err(MutationError::Conflict)
            } else {
                Ok(
                    AlbumDecision {
                        next: Some(
                            AlbumView {
                                members: reordered(album@.members, texts(photo_ids@)),
                                ..album@
                            },
                        ),
                        album_id: album_id@,
                        added: 0,
                        already: 0,
                    },
                )
            },
        },
        AlbumMutation::SetProgress { album_id, photo_id } => match facts.album {
            None => Err(MutationError::NotFound),
            Some(album) => if !member_ids(album@.members).contains(photo_id@) {
                Err(MutationError::NotFound)
            } else {
                Ok(
                    AlbumDecision {
                        next: Some(AlbumView { saved_photo_id: Some(photo_id@), ..album@ }),
                        album_id: album_id@,
                        added: 0,
                        already: 0,
                    },
                )
            },
        },
    }
}

/// What a request to add Photos does, or why it is refused: the Album and every
/// Photo must be known, and positions must be left.
pub open spec fn decide_add(
    facts: AlbumFacts,
    album_id: Seq<char>,
    ids: Seq<Seq<char>>,
) -> Result<AlbumDecision, MutationError> {
    match facts.album {
        None => Err(MutationError::NotFound),
        Some(album) => if !all_known(facts.photos@, ids) {
            Err(MutationError::NotFound)
        } else {
            match add_refusal(album@.members, ids) {
                Some(error) => Err(error),
                None => Ok(
                    AlbumDecision {
                        next: Some(
                            AlbumView {
                                members: with_members(album@.members, facts.photos@, ids),
                                ..album@
                            },
                        ),
                        album_id,
                        added: added_ids(member_ids(album@.members), ids).len(),
                        already: already_ids(member_ids(album@.members), ids).len(),
                    },
                ),
            }
        },
    }
}

/// Whether an answer is a decision, on its view.
pub open spec fn decided(
    result: Result<AlbumChange, MutationError>,
    decision: Result<AlbumDecision, MutationError>,
) -> bool {
    match decision {
        Ok(expected) => result is Ok && result->Ok_0@ == expected,
        Err(error) => result == Err::<AlbumChange, MutationError>(error),
    }
}

fn is_name_taken(names: &Vec<AlbumName>, name: &String, except: Option<&String>) -> (taken: bool)
    ensures
        taken == name_taken(
            names@,
            name@,
            match except {
                Some(id) => Some(id@),
                None => None,
            },
        ),
{
    let ghost skipped = match except {
        Some(id) => Some(id@),
        None => None,
    };
    let mut i: usize = 0;
    while i < names.len()
        invariant
            i <= names.len(),
            skipped == (match except {
                Some(id) => Some(id@),
                None => None,
            }),
            forall|j: int|
                0 <= j < i ==> !(stored_name((#[trigger] names@[j]).name@) == stored_name(name@)
                    && Some(names@[j].id@) != skipped),
        decreases names.len() - i,
    {
        let own: bool = match except {
            Some(id) => same_text(&names[i].id, id),
            None => false,
        };
        if !own && same_stored_name(&names[i].name, name) {
            assert(stored_name(names@[i as int].name@) == stored_name(name@));
            return true;
        }
        i = i + 1;
    }
    false
}

fn is_id_taken(names: &Vec<AlbumName>, id: &String) -> (taken: bool)
    ensures
        taken == id_taken(names@, id@),
{
    let mut i: usize = 0;
    while i < names.len()
        invariant
            i <= names.len(),
            forall|j: int| 0 <= j < i ==> (#[trigger] names@[j]).id@ != id@,
        decreases names.len() - i,
    {
        if same_text(&names[i].id, id) {
            assert(names@[i as int].id@ == id@);
            return true;
        }
        i = i + 1;
    }
    false
}

proof fn lemma_first_named_extends(names: Seq<AlbumName>, name: Seq<char>, n: int)
    requires
        0 <= n <= names.len(),
        first_named(names.take(n), name) is Some,
    ensures
        first_named(names, name) == first_named(names.take(n), name),
    decreases names.len(),
{
    if n < names.len() {
        assert(names.drop_last().take(n) =~= names.take(n));
        lemma_first_named_extends(names.drop_last(), name, n);
    } else {
        assert(names.take(n) =~= names);
    }
}

/// The Album, other than the given one, whose name stands in the way of a name.
pub fn conflicting_album_id(
    names: &Vec<AlbumName>,
    name: &String,
    except: Option<&String>,
) -> (conflicting: Option<String>)
    ensures
        opt_text(conflicting) == conflicting_album(
            names@,
            name@,
            match except {
                Some(id) => Some(id@),
                None => None,
            },
        ),
{
    let mut i: usize = 0;
    while i < names.len()
        invariant
            i <= names.len(),
            first_named(names@.take(i as int), name@) is None,
        decreases names.len() - i,
    {
        let ghost taken = names@.take(i + 1);
        assert(taken.drop_last() =~= names@.take(i as int));
        assert(taken.last() == names@[i as int]);
        if same_stored_name(&names[i].name, name) {
            proof {
                lemma_first_named_extends(names@, name@, i + 1);
            }
            match except {
                Some(own) => {
                    if same_text(&names[i].id, own) {
                        return None;
                    }
                },
                None => {},
            }
            return Some(names[i].id.clone());
        }
        i = i + 1;
    }
    assert(names@.take(names@.len() as int) =~= names@);
    None
}

fn clone_album(album: &AlbumState) -> (copy: AlbumState)
    ensures
        copy@ == album@,
{
    AlbumState {
        id: album.id.clone(),
        name: album.name.clone(),
        created_at: album.created_at,
        members: clone_members(&album.members),
        saved_photo_id: clone_opt_text(&album.saved_photo_id),
    }
}

fn add_to_album(facts: &AlbumFacts, album_id: &String, photo_ids: &Vec<String>) -> (result: Result<
    AlbumChange,
    MutationError,
>)
    ensures
        decided(result, decide_add(*facts, album_id@, texts(photo_ids@))),
{
    match &facts.album {
        None => Err(MutationError::NotFound),
        Some(album) => {
            if find_unknown(&facts.photos, photo_ids).is_some() {
                return Err(MutationError::NotFound);
            }
            match extend_members(&album.members, &facts.photos, photo_ids) {
                Err(error) => Err(error),
                Ok(extended) => {
                    let (members, added, already) = extended;
                    assert(texts(added@).len() == added.len());
                    assert(texts(already@).len() == already.len());
                    Ok(
                        AlbumChange {
                            next: Some(
                                AlbumState {
                                    id: album.id.clone(),
                                    name: album.name.clone(),
                                    created_at: album.created_at,
                                    members,
                                    saved_photo_id: clone_opt_text(&album.saved_photo_id),
                                },
                            ),
                            result: AlbumMutationResult {
                                album_id: album_id.clone(),
                                added_count: added.len(),
                                already_member_count: already.len(),
                            },
                        },
                    )
                },
            }
        },
    }
}

fn saved_unless_gone(saved: &Option<String>, gone: &Vec<String>) -> (kept: Option<String>)
    ensures
        opt_text(kept) == saved_after(opt_text(*saved), texts(gone@)),
{
    match saved {
        Some(id) => if contains_text(gone, id) {
            None
        } else {
            Some(id.clone())
        },
        None => None,
    }
}

fn unchanged_counts(next: Option<AlbumState>, album_id: &String) -> (change: AlbumChange)
    ensures
        change.next == next,
        change.result.album_id@ == album_id@,
        change.result.added_count == 0,
        change.result.already_member_count == 0,
{
    AlbumChange {
        next,
        result: AlbumMutationResult {
            album_id: album_id.clone(),
            added_count: 0,
            already_member_count: 0,
        },
    }
}

/// Decides an Album change. The identity and the time are those that a new Album
/// gets.
pub fn mutate_album(
    facts: &AlbumFacts,
    mutation: &AlbumMutation,
    new_id: &String,
    now: i64,
) -> (result: Result<AlbumChange, MutationError>)
    ensures
        decided(result, decide_album(*facts, *mutation, new_id@, now as int)),
{
    match mutation {
        AlbumMutation::Create { name } => {
            if is_id_taken(&facts.names, new_id) || is_name_taken(&facts.names, name, None)
                || !is_storable_name(name) {
                return Err(MutationError::Conflict);
            }
            let members: Vec<Member> = Vec::new();
            assert(members_view(members@) =~= Seq::<MemberView>::empty());
            Ok(
                unchanged_counts(
                    Some(
                        AlbumState {
                            id: new_id.clone(),
                            name: name.clone(),
                            created_at: now,
                            members,
                            saved_photo_id: None,
                        },
                    ),
                    new_id,
                ),
            )
        },
        AlbumMutation::Rename { album_id, name } => match &facts.album {
            None => Err(MutationError::NotFound),
            Some(album) => {
                if is_name_taken(&facts.names, name, Some(album_id)) || !is_storable_name(name) {
                    return Err(MutationError::Conflict);
                }
                let mut next: AlbumState = clone_album(album);
                next.name = name.clone();
                Ok(unchanged_counts(Some(next), album_id))
            },
        },
        AlbumMutation::Delete { album_id } => match &facts.album {
            None => Err(MutationError::NotFound),
            Some(_) => Ok(unchanged_counts(None, album_id)),
        },
        AlbumMutation::AddMembers { album_id, photo_ids } => add_to_album(
            facts,
            album_id,
            photo_ids,
        ),
        AlbumMutation::AddFolderMembers { album_id, photo_ids } => add_to_album(
            facts,
            album_id,
            photo_ids,
        ),
        AlbumMutation::RemoveMember { album_id, photo_id } => match &facts.album {
            None => Err(MutationError::NotFound),
            Some(album) => match drop_member(&album.members, photo_id) {
                None => Err(MutationError::NotFound),
                Some(members) => {
                    let mut gone: Vec<String> = Vec::new();
                    gone.push(photo_id.clone());
                    assert(texts(gone@) =~= seq![photo_id@]);
                    Ok(
                        unchanged_counts(
                            Some(
                                AlbumState {
                                    id: album.id.clone(),
                                    name: album.name.clone(),
                                    created_at: album.created_at,
                                    members,
                                    saved_photo_id: saved_unless_gone(&album.saved_photo_id, &gone),
                                },
                            ),
                            album_id,
                        ),
                    )
                },
            },
        },
        AlbumMutation::Reorder { album_id, photo_ids } => match &facts.album {
            None => Err(MutationError::NotFound),
            Some(album) => {
                let count: u64 = album.members.len() as u64;
                if !is_dense(&album.members) || !members_are(&album.members, photo_ids)
                    || !distinct_texts(photo_ids) || count > 0x3fff_ffff_ffff_ffff {
                    return Err(MutationError::Conflict);
                }
                proof {
                    lemma_request_no_longer(
                        member_ids(members_view(album.members@)),
                        texts(photo_ids@),
                    );
                }
                Ok(
                    unchanged_counts(
                        Some(
                            AlbumState {
                                id: album.id.clone(),
                                name: album.name.clone(),
                                created_at: album.created_at,
                                members: order_members(&album.members, photo_ids),
                                saved_photo_id: clone_opt_text(&album.saved_photo_id),
                            },
                        ),
                        album_id,
                    ),
                )
            },
        },
        AlbumMutation::SetProgress { album_id, photo_id } => match &facts.album {
            None => Err(MutationError::NotFound),
            Some(album) => {
                if index_of_member(&album.members, photo_id).is_none() {
                    return Err(MutationError::NotFound);
                }
                let mut next: AlbumState = clone_album(album);
                next.saved_photo_id = Some(photo_id.clone());
                Ok(unchanged_counts(Some(next), album_id))
            },
        },
    }
}

proof fn lemma_request_no_longer(current: Seq<Seq<char>>, ids: Seq<Seq<char>>)
    requires
        same_set(current, ids),
        ids.no_duplicates(),
    ensures
        ids.len() <= current.len(),
{
    ids.unique_seq_to_set();
    assert forall|id: Seq<char>| ids.to_set().contains(id) implies current.to_set().contains(
        id,
    ) by {
        assert(ids.contains(id));
        assert(current.contains(id));
    }
    vstd::set_lib::lemma_len_subset(ids.to_set(), current.to_set());
    current.lemma_cardinality_of_set();
}


/// How an Album change counts as a change of the Album's version.
#[derive(Clone, Debug, PartialEq, Eq)]
pub struct AlbumVersionPlan {
    pub album_id: String,
    pub advance: bool,
    pub deleted: bool,
}

/// The Album that a change addresses; a new Album is not addressed by name.
pub open spec fn planned_album(mutation: AlbumMutation) -> Seq<char> {
    match mutation {
        AlbumMutation::Create { .. } => Seq::empty(),
        AlbumMutation::Rename { album_id, .. } => album_id@,
        AlbumMutation::Delete { album_id } => album_id@,
        AlbumMutation::AddMembers { album_id, .. } => album_id@,
        AlbumMutation::AddFolderMembers { album_id, .. } => album_id@,
        AlbumMutation::RemoveMember { album_id, .. } => album_id@,
        AlbumMutation::Reorder { album_id, .. } => album_id@,
        AlbumMutation::SetProgress { album_id, .. } => album_id@,
    }
}

/// Whether some identity of a request is new to a list.
pub open spec fn some_new(current: Seq<Seq<char>>, ids: Seq<Seq<char>>) -> bool {
    exists|i: int| 0 <= i < ids.len() && !current.contains(#[trigger] ids[i])
}

/// Whether a change advances the version of the Album it addresses: another
/// name, a new member, a removal, or another order. Saving a browsing position
/// does not.
pub open spec fn plans_advance(album: Option<AlbumState>, mutation: AlbumMutation) -> bool {
    match mutation {
        AlbumMutation::Rename { name, .. } => album is Some && album->0.name@ != name@,
        AlbumMutation::AddMembers { photo_ids, .. } => album is Some && some_new(
            member_ids(album->0@.members),
            texts(photo_ids@),
        ),
        AlbumMutation::AddFolderMembers { photo_ids, .. } => album is Some && some_new(
            member_ids(album->0@.members),
            texts(photo_ids@),
        ),
        AlbumMutation::RemoveMember { .. } => true,
        AlbumMutation::Reorder { photo_ids, .. } => album is Some && member_ids(
            album->0@.members,
        ) != texts(photo_ids@),
        _ => false,
    }
}

fn names_new_member(members: &Vec<Member>, ids: &Vec<String>) -> (answer: bool)
    ensures
        answer == some_new(member_ids(members_view(members@)), texts(ids@)),
{
    let mut i: usize = 0;
    while i < ids.len()
        invariant
            i <= ids.len(),
            forall|j: int|
                0 <= j < i ==> member_ids(members_view(members@)).contains(
                    #[trigger] texts(ids@)[j],
                ),
        decreases ids.len() - i,
    {
        assert(texts(ids@)[i as int] == ids@[i as int]@);
        if index_of_member(members, &ids[i]).is_none() {
            return true;
        }
        i = i + 1;
    }
    false
}

fn plan_for(album_id: &String, advance: bool, deleted: bool) -> (plan: AlbumVersionPlan)
    ensures
        plan.album_id@ == album_id@,
        plan.advance == advance,
        plan.deleted == deleted,
{
    AlbumVersionPlan { album_id: album_id.clone(), advance, deleted }
}

/// How an Album change will count, decided on the state before it.
pub fn album_version_plan(album: &Option<AlbumState>, mutation: &AlbumMutation) -> (plan:
    AlbumVersionPlan)
    ensures
        plan.album_id@ == planned_album(*mutation),
        plan.advance == plans_advance(*album, *mutation),
        plan.deleted == (*mutation is Delete),
{
    match mutation {
        AlbumMutation::Create { .. } => AlbumVersionPlan {
            album_id: String::new(),
            advance: false,
            deleted: false,
        },
        AlbumMutation::Rename { album_id, name } => {
            let advance: bool = match album {
                Some(before) => !same_text(&before.name, name),
                None => false,
            };
            plan_for(album_id, advance, false)
        },
        AlbumMutation::Delete { album_id } => plan_for(album_id, false, true),
        AlbumMutation::AddMembers { album_id, photo_ids } => {
            let advance: bool = match album {
                Some(before) => names_new_member(&before.members, photo_ids),
                None => false,
            };
            plan_for(album_id, advance, false)
        },
        AlbumMutation::AddFolderMembers { album_id, photo_ids } => {
            let advance: bool = match album {
                Some(before) => names_new_member(&before.members, photo_ids),
                None => false,
            };
            plan_for(album_id, advance, false)
        },
        AlbumMutation::RemoveMember { album_id, .. } => plan_for(album_id, true, false),
        AlbumMutation::Reorder { album_id, photo_ids } => {
            let advance: bool = match album {
                Some(before) => !ordered_as(&before.members, photo_ids),
                None => false,
            };
            plan_for(album_id, advance, false)
        },
        AlbumMutation::SetProgress { album_id, .. } => plan_for(album_id, false, false),
    }
}

/// A decided membership change: the Album's stored state after it and the
/// answer.
#[derive(Clone, Debug, PartialEq, Eq)]
pub struct MembershipChange {
    pub next: AlbumState,
    pub result: AlbumMembershipResult,
}

/// What a membership change does, or why it is refused. Every Photo is resolved
/// before the first one is touched, so an unknown Photo refuses the whole
/// request. The answer tells, in the order of the request, which Photos changed
/// and which were already so.
pub open spec fn membership_decided(
    facts: AlbumFacts,
    mutation: AlbumMembershipMutation,
    result: Result<MembershipChange, MutationError>,
) -> bool {
    let (album_id, ids) = membership_target(mutation);
    match facts.album {
        None => result == Err::<MembershipChange, MutationError>(MutationError::NotFound),
        Some(album) => if !all_known(facts.photos@, ids) {
            result == Err::<MembershipChange, MutationError>(MutationError::NotFound)
        } else {
            let current = member_ids(album@.members);
            match mutation {
                AlbumMembershipMutation::Add { .. } => match add_refusal(album@.members, ids) {
                    Some(error) => result == Err::<MembershipChange, MutationError>(error),
                    None => {
                        &&& result matches Ok(change)
                        &&& change.next@ == (AlbumView {
                            members: with_members(album@.members, facts.photos@, ids),
                            ..album@
                        })
                        &&& change.result.album_id@ == album_id
                        &&& texts(change.result.added_photo_ids@) == added_ids(current, ids)
                        &&& texts(change.result.already_member_photo_ids@) == already_ids(
                            current,
                            ids,
                        )
                        &&& change.result.removed_photo_ids@.len() == 0
                        &&& change.result.already_absent_photo_ids@.len() == 0
                    },
                },
                AlbumMembershipMutation::RemoveAdded { .. } => {
                    &&& result matches Ok(change)
                    &&& change.next@ == (AlbumView {
                        members: without_members(album@.members, ids),
                        saved_photo_id: saved_after(
                            album@.saved_photo_id,
                            removed_ids(current, ids),
                        ),
                        ..album@
                    })
                    &&& change.result.album_id@ == album_id
                    &&& texts(change.result.removed_photo_ids@) == removed_ids(current, ids)
                    &&& texts(change.result.already_absent_photo_ids@) == absent_ids(current, ids)
                    &&& change.result.added_photo_ids@.len() == 0
                    &&& change.result.already_member_photo_ids@.len() == 0
                },
            }
        },
    }
}

/// Decides a membership change.
pub fn mutate_album_membership(
    facts: &AlbumFacts,
    mutation: &AlbumMembershipMutation,
) -> (result: Result<MembershipChange, MutationError>)
    ensures
        membership_decided(*facts, *mutation, result),
{
    let album: &AlbumState = match &facts.album {
        None => {
            return Err(MutationError::NotFound);
        },
        Some(album) => album,
    };
    match mutation {
        AlbumMembershipMutation::Add { album_id, photo_ids } => {
            if find_unknown(&facts.photos, photo_ids).is_some() {
                return Err(MutationError::NotFound);
            }
            match extend_members(&album.members, &facts.photos, photo_ids) {
                Err(error) => Err(error),
                Ok(extended) => {
                    let (members, added, already) = extended;
                    Ok(
                        MembershipChange {
                            next: AlbumState {
                                id: album.id.clone(),
                                name: album.name.clone(),
                                created_at: album.created_at,
                                members,
                                saved_photo_id: clone_opt_text(&album.saved_photo_id),
                            },
                            result: AlbumMembershipResult {
                                album_id: album_id.clone(),
                                added_photo_ids: added,
                                already_member_photo_ids: already,
                                removed_photo_ids: Vec::new(),
                                already_absent_photo_ids: Vec::new(),
                            },
                        },
                    )
                },
            }
        },
        AlbumMembershipMutation::RemoveAdded { album_id, photo_ids } => {
            if find_unknown(&facts.photos, photo_ids).is_some() {
                return Err(MutationError::NotFound);
            }
            let (members, removed, absent) = drop_members(&album.members, photo_ids);
            let saved: Option<String> = saved_unless_gone(&album.saved_photo_id, &removed);
            Ok(
                MembershipChange {
                    next: AlbumState {
                        id: album.id.clone(),
                        name: album.name.clone(),
                        created_at: album.created_at,
                        members,
                        saved_photo_id: saved,
                    },
                    result: AlbumMembershipResult {
                        album_id: album_id.clone(),
                        added_photo_ids: Vec::new(),
                        already_member_photo_ids: Vec::new(),
                        removed_photo_ids: removed,
                        already_absent_photo_ids: absent,
                    },
                },
            )
        },
    }
}

pub proof fn lemma_first_named_found(names: Seq<AlbumName>, name: Seq<char>)
    ensures
        first_named(names, name) is Some <==> exists|i: int|
            0 <= i < names.len() && stored_name((#[trigger] names[i]).name@) == stored_name(name),
        first_named(names, name) matches Some(id) ==> exists|i: int|
            0 <= i < names.len() && (#[trigger] names[i]).id@ == id && stored_name(names[i].name@)
                == stored_name(name),
    decreases names.len(),
{
    if names.len() > 0 {
        let front = names.drop_last();
        lemma_first_named_found(front, name);
        assert forall|i: int| 0 <= i < front.len() implies front[i] == #[trigger] names[i] by {}
        if first_named(front, name) is Some {
            let i = choose|i: int|
                0 <= i < front.len() && (#[trigger] front[i]).id@ == first_named(front, name)->0
                    && stored_name(front[i].name@) == stored_name(name);
            assert(names[i].id@ == first_named(front, name)->0);
        } else if stored_name(names.last().name@) == stored_name(name) {
            assert(names[names.len() - 1].id@ == names.last().id@);
        }
        if exists|i: int|
            0 <= i < names.len() && stored_name((#[trigger] names[i]).name@) == stored_name(name) {
            let i = choose|i: int|
                0 <= i < names.len() && stored_name((#[trigger] names[i]).name@) == stored_name(
                    name,
                );
            if i < front.len() {
                assert(stored_name(front[i].name@) == stored_name(name));
            }
        }
    }
}

/// A name is in conflict exactly where another Album than the excepted one has it, and
/// that Album is named. No two Albums share a stored name.
pub proof fn law_conflicting_names_are_told(
    names: Vec<AlbumName>,
    name: String,
    except: Option<&String>,
    conflicting: Option<String>,
)
    requires
        call_ensures(conflicting_album_id, (&names, &name, except), conflicting),
        forall|i: int, j: int|
            0 <= i < j < names.len() ==> stored_name((#[trigger] names@[i]).name@) != stored_name(
                (#[trigger] names@[j]).name@,
            ),
    ensures
        conflicting matches Some(id) ==> {
            &&& except matches Some(own) ==> own@ != id@
            &&& exists|i: int|
                0 <= i < names.len() && (#[trigger] names@[i]).id@ == id@ && stored_name(
                    names@[i].name@,
                ) == stored_name(name@)
        },
        conflicting is None ==> forall|i: int|
            0 <= i < names.len() && stored_name((#[trigger] names@[i]).name@) == stored_name(name@)
                ==> except is Some && except->0@ == names@[i].id@,
{
    lemma_first_named_found(names@, name@);
    if conflicting is None {
        assert forall|i: int|
            0 <= i < names.len() && stored_name((#[trigger] names@[i]).name@) == stored_name(
                name@,
            ) implies except is Some && except->0@ == names@[i].id@ by {
            let id = first_named(names@, name@)->0;
            let k = choose|k: int|
                0 <= k < names.len() && (#[trigger] names@[k]).id@ == id && stored_name(
                    names@[k].name@,
                ) == stored_name(name@);
            if k < i {
                assert(stored_name(names@[k].name@) != stored_name(names@[i].name@));
            } else if i < k {
                assert(stored_name(names@[i].name@) != stored_name(names@[k].name@));
            }
        }
    }
}

} // verus!
