//! The commands that may move a version: each is decided on the versions and on
//! what is stored, then stored, then settled.
use crate::album::{
    AlbumCreationResult, AlbumMembershipMutation, AlbumMembershipResult, AlbumMutation,
    AlbumMutationResult, CheckedAlbumMutation, CheckedAlbumMutationResult,
};
use crate::album_change::{AlbumFacts, MembershipChange};
use crate::album_checked::{
    album_created, album_planned, checked_album_decided, create_album_checked, membership_planned,
    mutate_album_checked, plan_album_membership, plan_album_mutation, settle_album_membership,
    settle_album_mutation, settle_checked_album, stuck, versions_kept, versions_settled,
    CheckedAlbumChange, PlannedAlbumChange,
};
use crate::album_state::AlbumState;
use crate::codec::SelectionState;
use crate::error::{
    album_write_error_from_mutation, album_write_error_of, photo_decision_write_error_of,
    AlbumWriteError, MutationError, PhotoDecisionWriteError,
};
use crate::owner::CommandSequence;
use crate::photo_change::{applied_view, PhotoStateBatchChange, PhotoStateChange};
use crate::photo_decision::{
    advance_all, batch_counters, batch_planned, decision_decided, mutate_photo_decision_checked,
    photo_planned, plan_photo_state, plan_photo_state_batch, settle_photo_decision,
    settle_photo_state, settle_photo_state_batch, PhotoDecisionChange,
};
use crate::photo_state::{
    checked_ids, rows_view, CheckedPhotoDecisionMutation, CheckedPhotoDecisionResult, DecisionRow,
    PhotoStateBatchMutation, PhotoStateBatchResult, PhotoStateMutation, PhotoStateMutationResult,
};
use crate::text::texts;
use crate::versions::{count_of, MutationVersions};
use vstd::prelude::*;

verus! {

/// A command that may move a version, with what is stored about it.
pub enum VersionedCommand {
    MutateAlbum { facts: AlbumFacts, mutation: AlbumMutation, new_id: String, now: i64 },
    MutateAlbumMembership { facts: AlbumFacts, mutation: AlbumMembershipMutation },
    CreateAlbum { facts: AlbumFacts, name: String, new_id: String, now: i64 },
    MutateAlbumChecked { facts: AlbumFacts, mutation: CheckedAlbumMutation },
    MutatePhotoDecisionChecked { rows: Vec<DecisionRow>, mutation: CheckedPhotoDecisionMutation },
    MutatePhotoState { rows: Vec<DecisionRow>, member: bool, mutation: PhotoStateMutation },
    MutatePhotoStateBatch { rows: Vec<DecisionRow>, mutation: PhotoStateBatchMutation },
}

/// What a command decided, which is yet to be stored.
pub enum PlannedChange {
    Album(PlannedAlbumChange),
    Membership(MembershipChange),
    Creation(AlbumState, AlbumCreationResult),
    CheckedAlbum(CheckedAlbumChange),
    Decision(PhotoDecisionChange),
    Photo(PhotoStateChange),
    Batch(SelectionState, PhotoStateBatchChange),
}

/// The answer to a command.
pub enum Answer {
    Album(Result<AlbumMutationResult, MutationError>),
    Membership(Result<AlbumMembershipResult, MutationError>),
    Creation(Result<AlbumCreationResult, AlbumWriteError>),
    CheckedAlbum(Result<CheckedAlbumMutationResult, AlbumWriteError>),
    Decision(Result<CheckedPhotoDecisionResult, PhotoDecisionWriteError>),
    Photo(Result<PhotoStateMutationResult, MutationError>),
    Batch(Result<PhotoStateBatchResult, MutationError>),
}

/// Whether a command can be decided: a checked batch names no Photo twice.
pub open spec fn decidable(command: VersionedCommand) -> bool {
    command matches VersionedCommand::MutatePhotoDecisionChecked { mutation, .. } ==> checked_ids(
        mutation.photos@,
    ).no_duplicates()
}

/// What a command decides on the versions, or the answer that refuses it.
pub open spec fn planned(
    versions: MutationVersions,
    command: VersionedCommand,
    result: Result<PlannedChange, Answer>,
) -> bool {
    match command {
        VersionedCommand::MutateAlbum { facts, mutation, new_id, now } => match result {
            Ok(PlannedChange::Album(change)) => album_planned(
                versions,
                facts,
                mutation,
                new_id@,
                now as int,
                Ok(change),
            ),
            Err(Answer::Album(answer)) => answer matches Err(error) && album_planned(
                versions,
                facts,
                mutation,
                new_id@,
                now as int,
                Err(error),
            ),
            _ => false,
        },
        VersionedCommand::MutateAlbumMembership { facts, mutation } => match result {
            Ok(PlannedChange::Membership(change)) => membership_planned(
                versions,
                facts,
                mutation,
                Ok(change),
            ),
            Err(Answer::Membership(answer)) => answer matches Err(error) && membership_planned(
                versions,
                facts,
                mutation,
                Err(error),
            ),
            _ => false,
        },
        VersionedCommand::CreateAlbum { facts, name, new_id, now } => match result {
            Ok(PlannedChange::Creation(next, created)) => album_created(
                versions,
                facts,
                name,
                new_id@,
                now as int,
                Ok((next, created)),
            ),
            Err(Answer::Creation(answer)) => answer matches Err(error) && album_created(
                versions,
                facts,
                name,
                new_id@,
                now as int,
                Err(error),
            ),
            _ => false,
        },
        VersionedCommand::MutateAlbumChecked { facts, mutation } => match result {
            Ok(PlannedChange::CheckedAlbum(change)) => checked_album_decided(
                versions,
                facts,
                mutation,
                Ok(change),
            ),
            Err(Answer::CheckedAlbum(answer)) => answer matches Err(error)
                && checked_album_decided(versions, facts, mutation, Err(error)),
            _ => false,
        },
        VersionedCommand::MutatePhotoDecisionChecked { rows, mutation } => match result {
            Ok(PlannedChange::Decision(change)) => decision_decided(
                versions,
                rows_view(rows@),
                mutation,
                Ok(change),
            ),
            Err(Answer::Decision(answer)) => answer matches Err(error) && decision_decided(
                versions,
                rows_view(rows@),
                mutation,
                Err(error),
            ),
            _ => false,
        },
        VersionedCommand::MutatePhotoState { rows, member, mutation } => match result {
            Ok(PlannedChange::Photo(change)) => photo_planned(
                versions,
                rows_view(rows@),
                member,
                mutation,
                Ok(change),
            ),
            Err(Answer::Photo(answer)) => answer matches Err(error) && photo_planned(
                versions,
                rows_view(rows@),
                member,
                mutation,
                Err(error),
            ),
            _ => false,
        },
        VersionedCommand::MutatePhotoStateBatch { rows, mutation } => match result {
            Ok(PlannedChange::Batch(value, change)) => value == mutation.value && batch_planned(
                versions,
                rows_view(rows@),
                mutation,
                Ok(change),
            ),
            Err(Answer::Batch(answer)) => answer matches Err(error) && batch_planned(
                versions,
                rows_view(rows@),
                mutation,
                Err(error),
            ),
            _ => false,
        },
    }
}

/// What the versions are once a change of one Photo is settled.
pub open spec fn photo_counters(
    counters: Map<Seq<char>, u64>,
    change: PhotoStateChange,
) -> Map<Seq<char>, u64> {
    let id = change.result.photo_id@;
    if change.result.undo.prior_value != change.result.undo.expected_current && count_of(
        counters,
        id,
    ) < u64::MAX {
        counters.insert(id, (count_of(counters, id) + 1) as u64)
    } else {
        counters
    }
}

/// What a stored change does to the versions.
pub open spec fn moved(
    before: MutationVersions,
    after: MutationVersions,
    change: PlannedChange,
) -> bool {
    match change {
        PlannedChange::Album(planned) => versions_settled(
            before,
            after,
            planned.plan.album_id@,
            planned.plan.advance,
            planned.plan.deleted,
        ),
        PlannedChange::Membership(change) => versions_settled(
            before,
            after,
            change.result.album_id@,
            change.result.added_photo_ids.len() > 0 || change.result.removed_photo_ids.len() > 0,
            false,
        ),
        PlannedChange::Creation(_, _) => versions_kept(before, after),
        PlannedChange::CheckedAlbum(change) => versions_settled(
            before,
            after,
            change.album_id@,
            change.advance,
            change.deleted,
        ),
        PlannedChange::Decision(change) => {
            &&& after.epoch == before.epoch
            &&& after.album@ == before.album@
            &&& after.photo@ == advance_all(before.photo@, texts(change.effective@)).0
        },
        PlannedChange::Photo(change) => {
            &&& after.epoch == before.epoch
            &&& after.album@ == before.album@
            &&& after.photo@ == photo_counters(before.photo@, change)
        },
        PlannedChange::Batch(value, change) => {
            &&& after.epoch == before.epoch
            &&& after.album@ == before.album@
            &&& after.photo@ == batch_counters(
                before.photo@,
                applied_view(change.result.applied@),
                value,
            )
        },
    }
}

/// The answer to a command whose change was stored.
pub open spec fn answered_stored(before: MutationVersions, change: PlannedChange) -> Answer {
    match change {
        PlannedChange::Album(planned) => Answer::Album(Ok(planned.change.result)),
        PlannedChange::Membership(change) => Answer::Membership(Ok(change.result)),
        PlannedChange::Creation(_, created) => Answer::Creation(Ok(created)),
        PlannedChange::CheckedAlbum(change) => if !change.deleted && stuck(
            before,
            change.album_id@,
            change.advance,
        ) {
            Answer::CheckedAlbum(Err(AlbumWriteError::Persistence))
        } else {
            Answer::CheckedAlbum(Ok(change.result))
        },
        PlannedChange::Decision(change) => if advance_all(
            before.photo@,
            texts(change.effective@),
        ).1 {
            Answer::Decision(Ok(change.result))
        } else {
            Answer::Decision(Err(PhotoDecisionWriteError::Persistence))
        },
        PlannedChange::Photo(change) => Answer::Photo(Ok(change.result)),
        PlannedChange::Batch(_, change) => Answer::Batch(Ok(change.result)),
    }
}

/// The answer to a command whose change could not be stored.
pub open spec fn answered_failed(change: PlannedChange, error: MutationError) -> Answer {
    match change {
        PlannedChange::Album(_) => Answer::Album(Err(error)),
        PlannedChange::Membership(_) => Answer::Membership(Err(error)),
        PlannedChange::Creation(_, _) => Answer::Creation(Err(album_write_error_of(error))),
        PlannedChange::CheckedAlbum(_) => Answer::CheckedAlbum(Err(album_write_error_of(error))),
        PlannedChange::Decision(_) => Answer::Decision(Err(photo_decision_write_error_of(error))),
        PlannedChange::Photo(_) => Answer::Photo(Err(error)),
        PlannedChange::Batch(_, _) => Answer::Batch(Err(error)),
    }
}

/// What settling a change does to the versions, and what it answers.
pub open spec fn settled(
    before: MutationVersions,
    after: MutationVersions,
    change: PlannedChange,
    stored: Result<(), MutationError>,
    answer: Answer,
) -> bool {
    match stored {
        Ok(_) => moved(before, after, change) && answer == answered_stored(before, change),
        Err(error) => versions_kept(before, after) && answer == answered_failed(change, error),
    }
}

/// What the owner keeps between commands: the versions, and how many commands it
/// has taken.
pub struct OwnerState {
    pub versions: MutationVersions,
    pub sequence: CommandSequence,
}

impl OwnerState {
    /// An owner that has taken no command yet.
    pub fn new(epoch: String) -> (state: OwnerState)
        ensures
            state.versions.epoch == epoch,
            state.versions.photo@ == Map::<Seq<char>, u64>::empty(),
            state.versions.album@ == Map::<Seq<char>, u64>::empty(),
            state.sequence.taken == 0,
    {
        OwnerState { versions: MutationVersions::new(epoch), sequence: CommandSequence::new() }
    }

    /// Decides a command. Nothing has changed yet.
    pub fn plan(&self, command: VersionedCommand) -> (result: Result<PlannedChange, Answer>)
        requires
            decidable(command),
        ensures
            planned(self.versions, command, result),
    {
        let versions: &MutationVersions = &self.versions;
        match command {
            VersionedCommand::MutateAlbum { facts, mutation, new_id, now } => {
                match plan_album_mutation(versions, &facts, &mutation, &new_id, now) {
                    Ok(change) => Ok(PlannedChange::Album(change)),
                    Err(error) => Err(Answer::Album(Err(error))),
                }
            },
            VersionedCommand::MutateAlbumMembership { facts, mutation } => {
                match plan_album_membership(versions, &facts, &mutation) {
                    Ok(change) => Ok(PlannedChange::Membership(change)),
                    Err(error) => Err(Answer::Membership(Err(error))),
                }
            },
            VersionedCommand::CreateAlbum { facts, name, new_id, now } => {
                match create_album_checked(versions, &facts, name, &new_id, now) {
                    Ok((next, created)) => Ok(PlannedChange::Creation(next, created)),
                    Err(error) => Err(Answer::Creation(Err(error))),
                }
            },
            VersionedCommand::MutateAlbumChecked { facts, mutation } => {
                match mutate_album_checked(versions, &facts, mutation) {
                    Ok(change) => Ok(PlannedChange::CheckedAlbum(change)),
                    Err(error) => Err(Answer::CheckedAlbum(Err(error))),
                }
            },
            VersionedCommand::MutatePhotoDecisionChecked { rows, mutation } => {
                match mutate_photo_decision_checked(versions, &rows, &mutation) {
                    Ok(change) => Ok(PlannedChange::Decision(change)),
                    Err(error) => Err(Answer::Decision(Err(error))),
                }
            },
            VersionedCommand::MutatePhotoState { rows, member, mutation } => {
                match plan_photo_state(versions, &rows, member, &mutation) {
                    Ok(change) => Ok(PlannedChange::Photo(change)),
                    Err(error) => Err(Answer::Photo(Err(error))),
                }
            },
            VersionedCommand::MutatePhotoStateBatch { rows, mutation } => {
                match plan_photo_state_batch(versions, &rows, &mutation) {
                    Ok(change) => Ok(PlannedChange::Batch(mutation.value, change)),
                    Err(error) => Err(Answer::Batch(Err(error))),
                }
            },
        }
    }

    /// Settles a decided command once its transaction ended. `stored` says how.
    pub fn settle(&mut self, change: PlannedChange, stored: Result<(), MutationError>) -> (answer:
        Answer)
        ensures
            settled(old(self).versions, final(self).versions, change, stored, answer),
            final(self).sequence == old(self).sequence,
    {
        match change {
            PlannedChange::Album(planned) => Answer::Album(
                settle_album_mutation(&mut self.versions, planned, stored),
            ),
            PlannedChange::Membership(change) => Answer::Membership(
                settle_album_membership(&mut self.versions, change, stored),
            ),
            PlannedChange::Creation(_, created) => match stored {
                Ok(_) => Answer::Creation(Ok(created)),
                Err(error) => Answer::Creation(Err(album_write_error_from_mutation(error))),
            },
            PlannedChange::CheckedAlbum(change) => Answer::CheckedAlbum(
                settle_checked_album(&mut self.versions, change, stored),
            ),
            PlannedChange::Decision(change) => Answer::Decision(
                settle_photo_decision(&mut self.versions, change, stored),
            ),
            PlannedChange::Photo(change) => Answer::Photo(
                settle_photo_state(&mut self.versions, change, stored),
            ),
            PlannedChange::Batch(value, change) => Answer::Batch(
                settle_photo_state_batch(&mut self.versions, value, change, stored),
            ),
        }
    }
}

/// A change that could not be stored moves no version, whatever it was, and no
/// command changes the epoch: every token keeps its meaning.
pub proof fn law_failed_changes_move_no_version(
    before: MutationVersions,
    after: MutationVersions,
    change: PlannedChange,
    stored: Result<(), MutationError>,
    answer: Answer,
    id: Seq<char>,
)
    requires
        settled(before, after, change, stored, answer),
    ensures
        after.epoch == before.epoch,
        stored is Err ==> after.photo_token(id) == before.photo_token(id) && after.album_token(id)
            == before.album_token(id),
{
}

/// A command is answered in its own kind: a change that was stored by its result, and
/// one that was not by the error, told as whoever asked knows it.
pub proof fn law_commands_are_answered_in_kind(
    before: MutationVersions,
    after: MutationVersions,
    change: PlannedChange,
    stored: Result<(), MutationError>,
    answer: Answer,
)
    requires
        settled(before, after, change, stored, answer),
    ensures
        change matches PlannedChange::Album(planned) ==> answer == Answer::Album(
            match stored {
                Ok(_) => Ok(planned.change.result),
                Err(error) => Err(error),
            },
        ),
        change matches PlannedChange::Membership(made) ==> answer == Answer::Membership(
            match stored {
                Ok(_) => Ok(made.result),
                Err(error) => Err(error),
            },
        ),
        change matches PlannedChange::Photo(made) ==> answer == Answer::Photo(
            match stored {
                Ok(_) => Ok(made.result),
                Err(error) => Err(error),
            },
        ),
        change matches PlannedChange::Batch(_, made) ==> answer == Answer::Batch(
            match stored {
                Ok(_) => Ok(made.result),
                Err(error) => Err(error),
            },
        ),
        change matches PlannedChange::Creation(_, created) ==> {
            &&& stored is Ok ==> answer == Answer::Creation(Ok(created))
            &&& answer matches Answer::Creation(told)
            &&& stored is Err ==> told is Err
            &&& stored is Err ==> (stored->Err_0 is Saturated <==> told->Err_0 is Saturated)
            &&& stored is Err ==> (stored->Err_0 is Closed <==> told->Err_0 is Closed)
        },
        change matches PlannedChange::CheckedAlbum(made) ==> {
            &&& answer matches Answer::CheckedAlbum(told)
            &&& stored is Err ==> told is Err
            &&& told matches Ok(result) ==> result == made.result
            &&& stored is Ok && (made.deleted || !made.advance || count_of(
                before.album@,
                made.album_id@,
            ) < u64::MAX) ==> told == Ok::<CheckedAlbumMutationResult, AlbumWriteError>(
                made.result,
            )
        },
        change matches PlannedChange::Decision(made) ==> {
            &&& answer matches Answer::Decision(told)
            &&& stored is Err ==> told is Err
            &&& told matches Ok(result) ==> result == made.result
        },
{
}

/// Whatever is asked, what is planned or refused is of the kind of the command.
pub proof fn law_commands_are_planned_in_kind(
    state: OwnerState,
    command: VersionedCommand,
    result: Result<PlannedChange, Answer>,
)
    requires
        call_ensures(OwnerState::plan, (&state, command), result),
        decidable(command),
    ensures
        command is MutateAlbum <==> (result matches Ok(PlannedChange::Album(_))) || (
        result matches Err(Answer::Album(_))),
        command is MutateAlbumMembership <==> (result matches Ok(PlannedChange::Membership(_))) || (
        result matches Err(Answer::Membership(_))),
        command is CreateAlbum <==> (result matches Ok(PlannedChange::Creation(_, _))) || (
        result matches Err(Answer::Creation(_))),
        command is MutateAlbumChecked <==> (result matches Ok(PlannedChange::CheckedAlbum(_))) || (
        result matches Err(Answer::CheckedAlbum(_))),
        command is MutatePhotoDecisionChecked <==> (result matches Ok(
            PlannedChange::Decision(_),
        )) || (result matches Err(Answer::Decision(_))),
        command is MutatePhotoState <==> (result matches Ok(PlannedChange::Photo(_))) || (
        result matches Err(Answer::Photo(_))),
        command is MutatePhotoStateBatch <==> (result matches Ok(PlannedChange::Batch(_, _))) || (
        result matches Err(Answer::Batch(_))),
        command matches VersionedCommand::MutatePhotoStateBatch { mutation, .. } ==> (
        result matches Ok(PlannedChange::Batch(value, _)) ==> value == mutation.value),
{
}

} // verus!
