//! Album requests and what makes one acceptable before any state is read.
use crate::error::{AlbumWriteError, MutationError};
use crate::limits::{
    ALBUM_ADD_MAX, ALBUM_MEMBERSHIP_BATCH_MAX, ALBUM_NAME_MAX, MAXIMUM_FOLDER_ALBUM_PHOTOS,
};
use crate::numeral::{ascii_lower, folded, same_name};
use crate::text::{
    any_blank, blank, distinct_texts, is_blank, length_before_nul, some_blank, stored_length,
    texts, trim_text, trimmed,
};
use vstd::prelude::*;
use vstd::string::*;
use vstd::utf8::{encode_scalar, encode_utf8};

verus! {

/// A change of Albums that names no version.
#[derive(Clone, Debug, PartialEq, Eq)]
pub enum AlbumMutation {
    Create { name: String },
    Rename { album_id: String, name: String },
    Delete { album_id: String },
    AddMembers { album_id: String, photo_ids: Vec<String> },
    AddFolderMembers { album_id: String, photo_ids: Vec<String> },
    RemoveMember { album_id: String, photo_id: String },
    Reorder { album_id: String, photo_ids: Vec<String> },
    SetProgress { album_id: String, photo_id: String },
}

/// The answer to an Album change.
#[derive(Clone, Debug, PartialEq, Eq)]
pub struct AlbumMutationResult {
    pub album_id: String,
    pub added_count: usize,
    pub already_member_count: usize,
}

/// A membership change that is answered identity by identity.
#[derive(Clone, Debug, PartialEq, Eq)]
pub enum AlbumMembershipMutation {
    Add { album_id: String, photo_ids: Vec<String> },
    RemoveAdded { album_id: String, photo_ids: Vec<String> },
}

/// The answer to a membership change, each list in the order of the request.
#[derive(Clone, Debug, PartialEq, Eq)]
pub struct AlbumMembershipResult {
    pub album_id: String,
    pub added_photo_ids: Vec<String>,
    pub already_member_photo_ids: Vec<String>,
    pub removed_photo_ids: Vec<String>,
    pub already_absent_photo_ids: Vec<String>,
}

/// A change of one Album that names the version it was decided on.
#[derive(Clone, Debug, PartialEq, Eq)]
pub enum CheckedAlbumMutation {
    Rename { album_id: String, name: String, expected_version: String },
    Delete { album_id: String, expected_version: String },
    AddMembers { album_id: String, photo_ids: Vec<String>, expected_version: String },
    RemoveMembers { album_id: String, photo_ids: Vec<String>, expected_version: String },
    Reorder { album_id: String, photo_ids: Vec<String>, expected_version: String },
}

/// What is told of an Album without its members.
#[derive(Clone, Debug, PartialEq, Eq)]
pub struct AlbumSummary {
    pub id: String,
    pub name: String,
    pub photo_count: usize,
    pub has_saved_position: bool,
    pub album_version: String,
}

/// The answer to a checked Album creation.
#[derive(Clone, Debug, PartialEq, Eq)]
pub struct AlbumCreationResult {
    pub album: AlbumSummary,
}

/// The answer to a checked Album change.
#[derive(Clone, Debug, PartialEq, Eq)]
pub enum CheckedAlbumMutationResult {
    Renamed { album: AlbumSummary, renamed: bool },
    Deleted { album_id: String },
    Added {
        album: AlbumSummary,
        added_photo_ids: Vec<String>,
        already_member_photo_ids: Vec<String>,
    },
    Removed {
        album: AlbumSummary,
        removed_photo_ids: Vec<String>,
        already_absent_photo_ids: Vec<String>,
        saved_photo_id: Option<String>,
    },
    Reordered { album: AlbumSummary, ordered_photo_ids: Vec<String>, reordered: bool },
}

/// What tells the names of Albums apart in the database: the characters before the
/// first NUL, ASCII case aside, and the number of all bytes.
pub open spec fn stored_name(name: Seq<char>) -> (Seq<char>, nat) {
    (folded(name.take(stored_length(name) as int)), encode_utf8(name).len())
}

/// Whether two names are one to the database.
pub fn same_stored_name(left: &String, right: &String) -> (same: bool)
    ensures
        same == (stored_name(left@) == stored_name(right@)),
{
    let before_left: String = left.as_str().substring_char(0, length_before_nul(left)).to_owned();
    let before_right: String = right.as_str().substring_char(
        0,
        length_before_nul(right),
    ).to_owned();
    assert(before_left@ =~= left@.take(stored_length(left@) as int));
    assert(before_right@ =~= right@.take(stored_length(right@) as int));
    same_name(&before_left, &before_right) && left.as_str().as_bytes().len()
        == right.as_str().as_bytes().len()
}

/// Whether the database holds a name: it counts the characters before the first
/// NUL.
pub open spec fn storable_name(name: Seq<char>) -> bool {
    1 <= stored_length(name) <= ALBUM_NAME_MAX
}

/// Whether the database holds a name.
pub fn is_storable_name(name: &String) -> (storable: bool)
    ensures
        storable == storable_name(name@),
{
    let length: usize = length_before_nul(name);
    1 <= length && length <= ALBUM_NAME_MAX
}

/// The name that a requested name stands for: the request without the white
/// space around it, when that leaves between one and 120 characters.
pub open spec fn album_name(name: Seq<char>) -> Option<Seq<char>> {
    if 0 < trimmed(name).len() <= ALBUM_NAME_MAX {
        Some(trimmed(name))
    } else {
        None
    }
}

fn acceptable_name(name: &String) -> (accepted: Option<String>)
    ensures
        match accepted {
            Some(kept) => album_name(name@) == Some(kept@),
            None => album_name(name@) is None,
        },
{
    let kept: String = trim_text(name);
    let count: usize = kept.as_str().unicode_len();
    if count == 0 || count > ALBUM_NAME_MAX {
        None
    } else {
        Some(kept)
    }
}

/// Whether a list of identities is too long for a limit or names one twice.
pub open spec fn overfull_or_repeated(ids: Seq<Seq<char>>, limit: nat) -> bool {
    ids.len() > limit || !ids.no_duplicates()
}

/// What accepting an Album change answers: the name is trimmed, a name that
/// trimming leaves empty or too long is refused, and so is a list of Photos that
/// is too long or names one twice. Everything else is accepted as it stands.
pub open spec fn album_mutation_accepted(
    mutation: AlbumMutation,
    result: Result<AlbumMutation, MutationError>,
) -> bool {
    match mutation {
        AlbumMutation::Create { name } => match album_name(name@) {
            Some(kept) => {
                &&& result matches Ok(AlbumMutation::Create { name: accepted })
                &&& accepted@ == kept
            },
            None => result == Err::<AlbumMutation, MutationError>(MutationError::Conflict),
        },
        AlbumMutation::Rename { album_id, name } => match album_name(name@) {
            Some(kept) => {
                &&& result matches Ok(AlbumMutation::Rename { album_id: id, name: accepted })
                &&& id == album_id
                &&& accepted@ == kept
            },
            None => result == Err::<AlbumMutation, MutationError>(MutationError::Conflict),
        },
        AlbumMutation::AddMembers { photo_ids, .. } => if overfull_or_repeated(
            texts(photo_ids@),
            ALBUM_ADD_MAX as nat,
        ) {
            result == Err::<AlbumMutation, MutationError>(MutationError::Conflict)
        } else {
            result == Ok::<AlbumMutation, MutationError>(mutation)
        },
        AlbumMutation::AddFolderMembers { photo_ids, .. } => if overfull_or_repeated(
            texts(photo_ids@),
            MAXIMUM_FOLDER_ALBUM_PHOTOS as nat,
        ) {
            result == Err::<AlbumMutation, MutationError>(MutationError::Conflict)
        } else {
            result == Ok::<AlbumMutation, MutationError>(mutation)
        },
        _ => result == Ok::<AlbumMutation, MutationError>(mutation),
    }
}

/// Accepts or refuses an Album change before any state is read.
pub fn normalize_album_mutation(mutation: AlbumMutation) -> (result: Result<
    AlbumMutation,
    MutationError,
>)
    ensures
        album_mutation_accepted(mutation, result),
{
    match mutation {
        AlbumMutation::Create { name } => match acceptable_name(&name) {
            Some(name) => Ok(AlbumMutation::Create { name }),
            None => Err(MutationError::Conflict),
        },
        AlbumMutation::Rename { album_id, name } => match acceptable_name(&name) {
            Some(name) => Ok(AlbumMutation::Rename { album_id, name }),
            None => Err(MutationError::Conflict),
        },
        AlbumMutation::AddMembers { album_id, photo_ids } => {
            if photo_ids.len() > ALBUM_ADD_MAX || !distinct_texts(&photo_ids) {
                return Err(MutationError::Conflict);
            }
            Ok(AlbumMutation::AddMembers { album_id, photo_ids })
        },
        AlbumMutation::AddFolderMembers { album_id, photo_ids } => {
            if photo_ids.len() > MAXIMUM_FOLDER_ALBUM_PHOTOS || !distinct_texts(&photo_ids) {
                return Err(MutationError::Conflict);
            }
            Ok(AlbumMutation::AddFolderMembers { album_id, photo_ids })
        },
        other => Ok(other),
    }
}

/// Whether a list of identities is empty, too long, or holds a blank or
/// repeated identity.
pub open spec fn malformed_batch(ids: Seq<Seq<char>>, limit: nat) -> bool {
    ids.len() == 0 || ids.len() > limit || some_blank(ids) || !ids.no_duplicates()
}

/// The Album and the Photos that a membership change names.
pub open spec fn membership_target(mutation: AlbumMembershipMutation) -> (
    Seq<char>,
    Seq<Seq<char>>,
) {
    match mutation {
        AlbumMembershipMutation::Add { album_id, photo_ids } => (album_id@, texts(photo_ids@)),
        AlbumMembershipMutation::RemoveAdded { album_id, photo_ids } => (
            album_id@,
            texts(photo_ids@),
        ),
    }
}

/// Accepts a membership change as it stands, or refuses it when it names no
/// Album, no Photo, too many, a blank one, or one twice.
pub fn normalize_album_membership_mutation(mutation: AlbumMembershipMutation) -> (result: Result<
    AlbumMembershipMutation,
    MutationError,
>)
    ensures
        result == (if blank(membership_target(mutation).0) || malformed_batch(
            membership_target(mutation).1,
            ALBUM_MEMBERSHIP_BATCH_MAX as nat,
        ) {
            Err::<AlbumMembershipMutation, MutationError>(MutationError::Invalid)
        } else {
            Ok::<AlbumMembershipMutation, MutationError>(mutation)
        }),
{
    let malformed: bool = match &mutation {
        AlbumMembershipMutation::Add { album_id, photo_ids } => is_blank(album_id)
            || malformed_ids(photo_ids),
        AlbumMembershipMutation::RemoveAdded { album_id, photo_ids } => is_blank(album_id)
            || malformed_ids(photo_ids),
    };
    if malformed {
        return Err(MutationError::Invalid);
    }
    Ok(mutation)
}

fn malformed_ids(photo_ids: &Vec<String>) -> (malformed: bool)
    ensures
        malformed == malformed_batch(texts(photo_ids@), ALBUM_MEMBERSHIP_BATCH_MAX as nat),
{
    photo_ids.len() == 0 || photo_ids.len() > ALBUM_MEMBERSHIP_BATCH_MAX || any_blank(photo_ids)
        || !distinct_texts(photo_ids)
}

/// Accepts the name of a checked Album write.
pub fn normalize_album_name(name: String) -> (result: Result<String, AlbumWriteError>)
    ensures
        match album_name(name@) {
            Some(kept) => result is Ok && result->Ok_0@ == kept,
            None => result == Err::<String, AlbumWriteError>(AlbumWriteError::Invalid),
        },
{
    match acceptable_name(&name) {
        Some(kept) => Ok(kept),
        None => Err(AlbumWriteError::Invalid),
    }
}

/// The Album that a checked change names.
pub open spec fn checked_album_id(mutation: CheckedAlbumMutation) -> String {
    match mutation {
        CheckedAlbumMutation::Rename { album_id, .. } => album_id,
        CheckedAlbumMutation::Delete { album_id, .. } => album_id,
        CheckedAlbumMutation::AddMembers { album_id, .. } => album_id,
        CheckedAlbumMutation::RemoveMembers { album_id, .. } => album_id,
        CheckedAlbumMutation::Reorder { album_id, .. } => album_id,
    }
}

/// The version that a checked change was decided on.
pub open spec fn checked_expected_version(mutation: CheckedAlbumMutation) -> String {
    match mutation {
        CheckedAlbumMutation::Rename { expected_version, .. } => expected_version,
        CheckedAlbumMutation::Delete { expected_version, .. } => expected_version,
        CheckedAlbumMutation::AddMembers { expected_version, .. } => expected_version,
        CheckedAlbumMutation::RemoveMembers { expected_version, .. } => expected_version,
        CheckedAlbumMutation::Reorder { expected_version, .. } => expected_version,
    }
}

/// What checking a list of Photos of a checked change answers.
pub open spec fn checked_ids_refusal(ids: Seq<Seq<char>>) -> Option<AlbumWriteError> {
    if ids.len() > ALBUM_MEMBERSHIP_BATCH_MAX {
        Some(
            AlbumWriteError::LimitExceeded {
                limit: ALBUM_MEMBERSHIP_BATCH_MAX,
                actual: ids.len() as usize,
            },
        )
    } else if malformed_batch(ids, ALBUM_MEMBERSHIP_BATCH_MAX as nat) {
        Some(AlbumWriteError::Invalid)
    } else {
        None
    }
}

/// What accepting a checked change answers: the target must be named and carry a
/// version, a name is trimmed, a list of Photos is checked, and everything else
/// stays as it was requested.
pub open spec fn checked_album_mutation_accepted(
    mutation: CheckedAlbumMutation,
    result: Result<CheckedAlbumMutation, AlbumWriteError>,
) -> bool {
    if blank(checked_album_id(mutation)@) || checked_expected_version(mutation)@.len() == 0 {
        result == Err::<CheckedAlbumMutation, AlbumWriteError>(AlbumWriteError::Invalid)
    } else {
        match mutation {
            CheckedAlbumMutation::Rename { album_id, name, expected_version } => match album_name(
                name@,
            ) {
                Some(kept) => {
                    &&& result matches Ok(CheckedAlbumMutation::Rename {
                        album_id: id,
                        name: accepted,
                        expected_version: version,
                    })
                    &&& id == album_id
                    &&& version == expected_version
                    &&& accepted@ == kept
                },
                None => result == Err::<CheckedAlbumMutation, AlbumWriteError>(
                    AlbumWriteError::Invalid,
                ),
            },
            CheckedAlbumMutation::Delete { .. } => result == Ok::<
                CheckedAlbumMutation,
                AlbumWriteError,
            >(mutation),
            CheckedAlbumMutation::AddMembers { photo_ids, .. } => checked_ids_accepted(
                mutation,
                photo_ids@,
                result,
            ),
            CheckedAlbumMutation::RemoveMembers { photo_ids, .. } => checked_ids_accepted(
                mutation,
                photo_ids@,
                result,
            ),
            CheckedAlbumMutation::Reorder { photo_ids, .. } => checked_ids_accepted(
                mutation,
                photo_ids@,
                result,
            ),
        }
    }
}

/// A checked change of Photos is accepted as it stands or refused for its list.
pub open spec fn checked_ids_accepted(
    mutation: CheckedAlbumMutation,
    photo_ids: Seq<String>,
    result: Result<CheckedAlbumMutation, AlbumWriteError>,
) -> bool {
    result == (match checked_ids_refusal(texts(photo_ids)) {
        Some(error) => Err::<CheckedAlbumMutation, AlbumWriteError>(error),
        None => Ok::<CheckedAlbumMutation, AlbumWriteError>(mutation),
    })
}

fn check_target(album_id: &String, expected_version: &String) -> (valid: bool)
    ensures
        valid == !(blank(album_id@) || expected_version@.len() == 0),
{
    !is_blank(album_id) && expected_version.as_str().unicode_len() > 0
}

fn check_ids(photo_ids: &Vec<String>) -> (refusal: Option<AlbumWriteError>)
    ensures
        refusal == checked_ids_refusal(texts(photo_ids@)),
{
    if photo_ids.len() > ALBUM_MEMBERSHIP_BATCH_MAX {
        return Some(
            AlbumWriteError::LimitExceeded {
                limit: ALBUM_MEMBERSHIP_BATCH_MAX,
                actual: photo_ids.len(),
            },
        );
    }
    if malformed_ids(photo_ids) {
        Some(AlbumWriteError::Invalid)
    } else {
        None
    }
}

/// Accepts or refuses a checked Album change before any state is read.
pub fn normalize_checked_album_mutation(mutation: CheckedAlbumMutation) -> (result: Result<
    CheckedAlbumMutation,
    AlbumWriteError,
>)
    ensures
        checked_album_mutation_accepted(mutation, result),
{
    match mutation {
        CheckedAlbumMutation::Rename { album_id, name, expected_version } => {
            if !check_target(&album_id, &expected_version) {
                return Err(AlbumWriteError::Invalid);
            }
            match acceptable_name(&name) {
                Some(name) => Ok(CheckedAlbumMutation::Rename { album_id, name, expected_version }),
                None => Err(AlbumWriteError::Invalid),
            }
        },
        CheckedAlbumMutation::Delete { album_id, expected_version } => {
            if !check_target(&album_id, &expected_version) {
                return Err(AlbumWriteError::Invalid);
            }
            Ok(CheckedAlbumMutation::Delete { album_id, expected_version })
        },
        CheckedAlbumMutation::AddMembers { album_id, photo_ids, expected_version } => {
            if !check_target(&album_id, &expected_version) {
                return Err(AlbumWriteError::Invalid);
            }
            match check_ids(&photo_ids) {
                Some(error) => Err(error),
                None => Ok(
                    CheckedAlbumMutation::AddMembers { album_id, photo_ids, expected_version },
                ),
            }
        },
        CheckedAlbumMutation::RemoveMembers { album_id, photo_ids, expected_version } => {
            if !check_target(&album_id, &expected_version) {
                return Err(AlbumWriteError::Invalid);
            }
            match check_ids(&photo_ids) {
                Some(error) => Err(error),
                None => Ok(
                    CheckedAlbumMutation::RemoveMembers { album_id, photo_ids, expected_version },
                ),
            }
        },
        CheckedAlbumMutation::Reorder { album_id, photo_ids, expected_version } => {
            if !check_target(&album_id, &expected_version) {
                return Err(AlbumWriteError::Invalid);
            }
            match check_ids(&photo_ids) {
                Some(error) => Err(error),
                None => Ok(CheckedAlbumMutation::Reorder { album_id, photo_ids, expected_version }),
            }
        },
    }
}

proof fn lemma_stored_whole(name: Seq<char>)
    requires
        !name.contains('\0'),
    ensures
        stored_length(name) == name.len(),
    decreases name.len(),
{
    if name.len() > 0 {
        assert(name.contains(name[0]));
        let rest = name.drop_first();
        assert forall|i: int| 0 <= i < rest.len() implies rest[i] != '\0' by {
            assert(name.contains(name[i + 1]));
        }
        lemma_stored_whole(rest);
    }
}

proof fn lemma_case_keeps_bytes(left: Seq<char>, right: Seq<char>)
    requires
        folded(left) == folded(right),
    ensures
        encode_utf8(left).len() == encode_utf8(right).len(),
    decreases left.len(),
{
    assert(left.len() == folded(left).len());
    assert(right.len() == folded(right).len());
    if left.len() > 0 {
        assert(folded(left)[0] == ascii_lower(left[0]));
        assert(folded(right)[0] == ascii_lower(right[0]));
        assert(folded(left.drop_first()) =~= folded(left).drop_first());
        assert(folded(right.drop_first()) =~= folded(right).drop_first());
        lemma_case_keeps_bytes(left.drop_first(), right.drop_first());
        assert(encode_scalar(left[0] as u32).len() == encode_scalar(right[0] as u32).len());
    }
}

/// Names without a NUL are one to the database exactly when they are the same, ASCII
/// case aside.
pub proof fn law_names_ignore_case(left: Seq<char>, right: Seq<char>)
    requires
        !left.contains('\0'),
        !right.contains('\0'),
    ensures
        stored_name(left) == stored_name(right) <==> folded(left) == folded(right),
{
    lemma_stored_whole(left);
    lemma_stored_whole(right);
    assert(left.take(left.len() as int) =~= left);
    assert(right.take(right.len() as int) =~= right);
    if folded(left) == folded(right) {
        lemma_case_keeps_bytes(left, right);
    }
}

/// Two names without NUL are one exactly where they are as long and each character is
/// the other's, or one is the lower case of the other among the ASCII letters.
pub proof fn law_names_differ_in_case_alone(left: Seq<char>, right: Seq<char>)
    requires
        !left.contains('\0'),
        !right.contains('\0'),
    ensures
        stored_name(left) == stored_name(right) <==> left.len() == right.len() && forall|x: int|
            0 <= x < left.len() ==> {
                let c = #[trigger] left[x];
                let d = right[x];
                c == d || ('A' <= c <= 'Z' && d as int == c as int + 32) || ('A' <= d <= 'Z'
                    && c as int == d as int + 32)
            },
{
    law_names_ignore_case(left, right);
    if folded(left) == folded(right) {
        assert(folded(left).len() == folded(right).len());
        assert forall|x: int| 0 <= x < left.len() implies {
            let c = #[trigger] left[x];
            let d = right[x];
            c == d || ('A' <= c <= 'Z' && d as int == c as int + 32) || ('A' <= d <= 'Z'
                && c as int == d as int + 32)
        } by {
            assert(folded(left)[x] == folded(right)[x]);
        }
    } else if left.len() == right.len() && forall|x: int|
        0 <= x < left.len() ==> {
            let c = #[trigger] left[x];
            let d = right[x];
            c == d || ('A' <= c <= 'Z' && d as int == c as int + 32) || ('A' <= d <= 'Z'
                && c as int == d as int + 32)
        } {
        assert forall|x: int| 0 <= x < left.len() implies folded(left)[x] == folded(right)[x] by {
            let c = left[x];
        }
        assert(folded(left) =~= folded(right));
    }
}

/// The name of an Album is accepted trimmed, where one to a hundred and twenty characters
/// are left of it; any other name is refused.
pub proof fn law_album_names_are_trimmed(
    name: String,
    result: Result<String, AlbumWriteError>,
)
    requires
        call_ensures(normalize_album_name, (name,), result),
    ensures
        result is Ok <==> 1 <= trimmed(name@).len() <= 120,
        result is Ok ==> result->Ok_0@ == trimmed(name@),
        result is Err ==> result->Err_0 == AlbumWriteError::Invalid,
{
}

/// A request to change Albums is accepted as it was made, but for a name, which is
/// trimmed. It is a conflict where its name is too long or none, or where it adds more
/// than a hundred Photos by name, more than ten thousand from a folder, or one twice.
pub proof fn law_album_requests_are_bounded(
    mutation: AlbumMutation,
    result: Result<AlbumMutation, MutationError>,
)
    requires
        call_ensures(normalize_album_mutation, (mutation,), result),
    ensures
        result is Err ==> result->Err_0 == MutationError::Conflict,
        mutation matches AlbumMutation::Create { name } ==> {
            &&& result is Ok <==> 1 <= trimmed(name@).len() <= 120
            &&& result is Ok ==> result->Ok_0 is Create && result->Ok_0->Create_name@ == trimmed(
                name@,
            )
        },
        mutation matches AlbumMutation::Rename { album_id, name } ==> {
            &&& result is Ok <==> 1 <= trimmed(name@).len() <= 120
            &&& result is Ok ==> result->Ok_0 is Rename && result->Ok_0->Rename_name@ == trimmed(
                name@,
            ) && result->Ok_0->Rename_album_id@ == album_id@
        },
        mutation matches AlbumMutation::AddMembers { photo_ids, .. } ==> {
            &&& photo_ids.len() > 100 ==> result is Err
            &&& forall|i: int, j: int|
                0 <= i < j < photo_ids.len() && (#[trigger] photo_ids@[i])@ == (
                #[trigger] photo_ids@[j])@ ==> result is Err
            &&& photo_ids.len() <= 100 && texts(photo_ids@).no_duplicates() ==> result is Ok
        },
        mutation matches AlbumMutation::AddFolderMembers { photo_ids, .. } ==> {
            &&& photo_ids.len() > 10_000 ==> result is Err
            &&& forall|i: int, j: int|
                0 <= i < j < photo_ids.len() && (#[trigger] photo_ids@[i])@ == (
                #[trigger] photo_ids@[j])@ ==> result is Err
            &&& photo_ids.len() <= 10_000 && texts(photo_ids@).no_duplicates() ==> result is Ok
        },
        !(mutation is Create) && !(mutation is Rename) && result is Ok ==> result->Ok_0
            == mutation,
        mutation is Delete || mutation is RemoveMember || mutation is Reorder || mutation
            is SetProgress ==> result is Ok,
{
    if let AlbumMutation::AddMembers { photo_ids, .. } = mutation {
        lemma_repeated_texts(photo_ids@);
    }
    if let AlbumMutation::AddFolderMembers { photo_ids, .. } = mutation {
        lemma_repeated_texts(photo_ids@);
    }
}

proof fn lemma_repeated_texts(list: Seq<String>)
    ensures
        forall|i: int, j: int|
            0 <= i < j < list.len() && (#[trigger] list[i])@ == (#[trigger] list[j])@ ==> !texts(
                list,
            ).no_duplicates(),
        texts(list).len() == list.len(),
{
    assert forall|i: int, j: int|
        0 <= i < j < list.len() && (#[trigger] list[i])@ == (#[trigger] list[j])@ implies !texts(
        list,
    ).no_duplicates() by {
        assert(texts(list)[i] == texts(list)[j]);
    }
}

/// A request that can be taken back names an Album and one to a hundred Photos, none of
/// them blank and none twice; any other is invalid.
pub proof fn law_membership_requests_are_bounded(
    mutation: AlbumMembershipMutation,
    album_id: String,
    photo_ids: Vec<String>,
    result: Result<AlbumMembershipMutation, MutationError>,
)
    requires
        call_ensures(normalize_album_membership_mutation, (mutation,), result),
        mutation == (AlbumMembershipMutation::Add { album_id, photo_ids }) || mutation == (
        AlbumMembershipMutation::RemoveAdded { album_id, photo_ids }),
    ensures
        result is Ok ==> result->Ok_0 == mutation,
        result is Err ==> result->Err_0 == MutationError::Invalid,
        result is Ok <==> !blank(album_id@) && 1 <= photo_ids.len() <= 100 && texts(
            photo_ids@,
        ).no_duplicates() && forall|i: int|
            0 <= i < photo_ids.len() ==> !blank((#[trigger] photo_ids@[i])@),
{
    let ids = texts(photo_ids@);
    assert(ids.len() == photo_ids.len());
    if forall|i: int| 0 <= i < photo_ids.len() ==> !blank((#[trigger] photo_ids@[i])@) {
        assert forall|i: int| 0 <= i < ids.len() implies !blank(#[trigger] ids[i]) by {
            assert(ids[i] == photo_ids@[i]@);
        }
    } else {
        let i = choose|i: int|
            0 <= i < photo_ids.len() && blank((#[trigger] photo_ids@[i])@);
        assert(blank(ids[i]));
    }
}

/// A checked request names an Album and the version that it was made on. One that names
/// more than a hundred Photos is told so; one that names none, a blank one, or one twice
/// is invalid.
pub proof fn law_checked_requests_are_bounded(
    mutation: CheckedAlbumMutation,
    result: Result<CheckedAlbumMutation, AlbumWriteError>,
    album_id: String,
    photo_ids: Vec<String>,
    expected_version: String,
)
    requires
        call_ensures(normalize_checked_album_mutation, (mutation,), result),
        mutation == (CheckedAlbumMutation::AddMembers { album_id, photo_ids, expected_version })
            || mutation == (CheckedAlbumMutation::RemoveMembers {
            album_id,
            photo_ids,
            expected_version,
        }) || mutation == (CheckedAlbumMutation::Reorder { album_id, photo_ids, expected_version }),
    ensures
        result is Ok ==> result->Ok_0 == mutation,
        blank(album_id@) || expected_version@.len() == 0 ==> result == Err::<
            CheckedAlbumMutation,
            AlbumWriteError,
        >(AlbumWriteError::Invalid),
        !blank(album_id@) && expected_version@.len() > 0 ==> {
            &&& photo_ids.len() > 100 ==> result is Err && result->Err_0 is LimitExceeded
                && result->Err_0->limit == 100 && result->Err_0->actual == photo_ids.len()
            &&& photo_ids.len() == 0 ==> result == Err::<CheckedAlbumMutation, AlbumWriteError>(
                AlbumWriteError::Invalid,
            )
            &&& 1 <= photo_ids.len() <= 100 && !texts(photo_ids@).no_duplicates() ==> result
                == Err::<CheckedAlbumMutation, AlbumWriteError>(AlbumWriteError::Invalid)
            &&& 1 <= photo_ids.len() <= 100 && texts(photo_ids@).no_duplicates() && (forall|i: int|
                0 <= i < photo_ids.len() ==> !blank((#[trigger] photo_ids@[i])@)) ==> result is Ok
        },
{
    let ids = texts(photo_ids@);
    assert(ids.len() == photo_ids.len());
    if forall|i: int| 0 <= i < photo_ids.len() ==> !blank((#[trigger] photo_ids@[i])@) {
        assert forall|i: int| 0 <= i < ids.len() implies !blank(#[trigger] ids[i]) by {
            assert(ids[i] == photo_ids@[i]@);
        }
    }
}

/// A checked rename is accepted with its name trimmed.
pub proof fn law_checked_renames_are_trimmed(
    album_id: String,
    name: String,
    expected_version: String,
    result: Result<CheckedAlbumMutation, AlbumWriteError>,
)
    requires
        call_ensures(
            normalize_checked_album_mutation,
            (CheckedAlbumMutation::Rename { album_id, name, expected_version },),
            result,
        ),
    ensures
        result is Ok <==> !blank(album_id@) && expected_version@.len() > 0 && 1 <= trimmed(
            name@,
        ).len() <= 120,
        result is Err ==> result->Err_0 == AlbumWriteError::Invalid,
        result is Ok ==> result->Ok_0 is Rename && result->Ok_0->Rename_album_id@ == album_id@
            && result->Ok_0->Rename_name@ == trimmed(name@)
            && result->Ok_0->Rename_expected_version@ == expected_version@,
{
}

} // verus!
