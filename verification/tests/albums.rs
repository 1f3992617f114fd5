use slipstream_state::album::{
    normalize_album_membership_mutation, normalize_album_mutation, normalize_album_name,
    normalize_checked_album_mutation, AlbumCreationResult, AlbumMembershipMutation,
    AlbumMembershipResult, AlbumMutation, AlbumMutationResult, AlbumSummary, CheckedAlbumMutation,
    CheckedAlbumMutationResult,
};
use slipstream_state::album_change::{
    album_version_plan, conflicting_album_id, mutate_album, mutate_album_membership, AlbumFacts,
    AlbumName,
};
use slipstream_state::album_checked::{
    list_album_summaries, mutate_album_checked, read_album, read_albums, settle_checked_album,
};
use slipstream_state::album_state::{
    count_shown, drop_member, extend_members, find_unknown, is_dense, members_are, order_members,
    AlbumState, Member, PhotoPresence,
};
use slipstream_state::codec::SelectionState;
use slipstream_state::dispatch::{Answer, OwnerState, PlannedChange, VersionedCommand};
use slipstream_state::binding::{AlbumEntry, MemberEntry};
use slipstream_state::error::{AlbumWriteError, MutationError, PhotoDecisionWriteError};
use slipstream_state::limits::{
    ALBUM_ADD_MAX, ALBUM_MEMBERSHIP_BATCH_MAX, ALBUM_NAME_MAX, MAXIMUM_PHOTO_RATING,
    PHOTO_STATE_BATCH_MAX,
};
use slipstream_state::photo_read::{album_browse_target, photo_albums};
use slipstream_state::photo_state::{
    normalize_checked_photo_decision_mutation, validate_photo_state_batch_mutation,
    validate_photo_state_mutation, CheckedPhotoDecisionItem, CheckedPhotoDecisionItemResult,
    CheckedPhotoDecisionMutation, CheckedPhotoDecisionOutcome, CheckedPhotoDecisionResult,
    DecisionRow, PhotoDecisionFacts, PhotoDecisionSnapshot, PhotoStateBatchApplied,
    PhotoStateBatchChangedElsewhere, PhotoStateBatchItem, PhotoStateBatchMissing,
    PhotoStateBatchMutation, PhotoStateBatchResult, PhotoStateField, PhotoStateMutation,
    PhotoStateMutationResult, PhotoStateValue,
};
use slipstream_state::query::{create_album_query, AlbumQueryFilter};
use slipstream_state::versions::MutationVersions;

/// A library in memory: commands are decided, stored here, and settled.
struct Shelf {
    owner: OwnerState,
    albums: Vec<AlbumState>,
    photos: Vec<DecisionRow>,
    made: u32,
    blocked: bool,
}

fn text(value: &str) -> String {
    value.to_owned()
}

impl Shelf {
    fn new(photos: &[&str]) -> Shelf {
        Shelf {
            owner: OwnerState::new(text("epoch-1")),
            albums: Vec::new(),
            photos: photos
                .iter()
                .map(|id| DecisionRow {
                    photo_id: text(id),
                    selection: text("undecided"),
                    rating: 0,
                })
                .collect(),
            made: 0,
            blocked: false,
        }
    }

    fn ids(&self) -> Vec<String> {
        self.photos.iter().map(|row| row.photo_id.clone()).collect()
    }

    fn find(&self, album_id: &str) -> Option<AlbumState> {
        self.albums.iter().find(|album| album.id == album_id).cloned()
    }

    fn facts(&self, album_id: &str) -> AlbumFacts {
        AlbumFacts {
            album: self.find(album_id),
            names: self
                .albums
                .iter()
                .map(|album| AlbumName { id: album.id.clone(), name: album.name.clone() })
                .collect(),
            photos: self
                .photos
                .iter()
                .map(|row| PhotoPresence { photo_id: row.photo_id.clone(), removed: false })
                .collect(),
        }
    }

    fn store(&mut self, id: &str, next: Option<AlbumState>) -> Result<(), MutationError> {
        if self.blocked {
            return Err(MutationError::Persistence);
        }
        let at = self.albums.iter().position(|album| album.id == id);
        match (at, next) {
            (Some(at), Some(next)) => self.albums[at] = next,
            (Some(at), None) => {
                self.albums.remove(at);
            }
            (None, Some(next)) => self.albums.push(next),
            (None, None) => {}
        }
        Ok(())
    }

    fn fresh(&mut self) -> String {
        self.made += 1;
        format!("album-{}", self.made)
    }

    fn album(&mut self, mutation: AlbumMutation) -> Result<AlbumMutationResult, MutationError> {
        let mutation = normalize_album_mutation(mutation)?;
        let target = match &mutation {
            AlbumMutation::Create { .. } => String::new(),
            AlbumMutation::Rename { album_id, .. }
            | AlbumMutation::Delete { album_id }
            | AlbumMutation::AddMembers { album_id, .. }
            | AlbumMutation::AddFolderMembers { album_id, .. }
            | AlbumMutation::RemoveMember { album_id, .. }
            | AlbumMutation::Reorder { album_id, .. }
            | AlbumMutation::SetProgress { album_id, .. } => album_id.clone(),
        };
        let command = VersionedCommand::MutateAlbum {
            facts: self.facts(&target),
            mutation,
            new_id: self.fresh(),
            now: 7,
        };
        let answer = match self.owner.plan(command) {
            Err(answer) => answer,
            Ok(change) => {
                let stored = match &change {
                    PlannedChange::Album(planned) => {
                        let id = planned.change.result.album_id.clone();
                        let next = planned.change.next.clone();
                        self.store(&id, next)
                    }
                    _ => panic!("another plan"),
                };
                self.owner.settle(change, stored)
            }
        };
        match answer {
            Answer::Album(result) => result,
            _ => panic!("another answer"),
        }
    }

    fn create(&mut self, name: &str) -> String {
        self.album(AlbumMutation::Create { name: text(name) }).unwrap().album_id
    }

    fn membership(
        &mut self,
        mutation: AlbumMembershipMutation,
    ) -> Result<AlbumMembershipResult, MutationError> {
        let mutation = normalize_album_membership_mutation(mutation)?;
        let target = match &mutation {
            AlbumMembershipMutation::Add { album_id, .. }
            | AlbumMembershipMutation::RemoveAdded { album_id, .. } => album_id.clone(),
        };
        let command =
            VersionedCommand::MutateAlbumMembership { facts: self.facts(&target), mutation };
        let answer = match self.owner.plan(command) {
            Err(answer) => answer,
            Ok(change) => {
                let stored = match &change {
                    PlannedChange::Membership(change) => {
                        let next = Some(change.next.clone());
                        self.store(&target, next)
                    }
                    _ => panic!("another plan"),
                };
                self.owner.settle(change, stored)
            }
        };
        match answer {
            Answer::Membership(result) => result,
            _ => panic!("another answer"),
        }
    }

    fn create_checked(&mut self, name: &str) -> Result<AlbumCreationResult, AlbumWriteError> {
        let name = normalize_album_name(text(name))?;
        let command = VersionedCommand::CreateAlbum {
            facts: self.facts(""),
            name,
            new_id: self.fresh(),
            now: 7,
        };
        let answer = match self.owner.plan(command) {
            Err(answer) => answer,
            Ok(change) => {
                let stored = match &change {
                    PlannedChange::Creation(next, _) => {
                        let (id, next) = (next.id.clone(), Some(next.clone()));
                        self.store(&id, next)
                    }
                    _ => panic!("another plan"),
                };
                self.owner.settle(change, stored)
            }
        };
        match answer {
            Answer::Creation(result) => result,
            _ => panic!("another answer"),
        }
    }

    fn checked(
        &mut self,
        mutation: CheckedAlbumMutation,
    ) -> Result<CheckedAlbumMutationResult, AlbumWriteError> {
        let mutation = normalize_checked_album_mutation(mutation)?;
        let target = match &mutation {
            CheckedAlbumMutation::Rename { album_id, .. }
            | CheckedAlbumMutation::Delete { album_id, .. }
            | CheckedAlbumMutation::AddMembers { album_id, .. }
            | CheckedAlbumMutation::RemoveMembers { album_id, .. }
            | CheckedAlbumMutation::Reorder { album_id, .. } => album_id.clone(),
        };
        let command = VersionedCommand::MutateAlbumChecked { facts: self.facts(&target), mutation };
        let answer = match self.owner.plan(command) {
            Err(answer) => answer,
            Ok(change) => {
                let stored = match &change {
                    PlannedChange::CheckedAlbum(change) => {
                        let next = change.next.clone();
                        self.store(&target, next)
                    }
                    _ => panic!("another plan"),
                };
                self.owner.settle(change, stored)
            }
        };
        match answer {
            Answer::CheckedAlbum(result) => result,
            _ => panic!("another answer"),
        }
    }

    fn photo_state(
        &mut self,
        mutation: PhotoStateMutation,
    ) -> Result<PhotoStateMutationResult, MutationError> {
        validate_photo_state_mutation(&mutation)?;
        let member = match &mutation.album_id {
            Some(album_id) => self.find(album_id).is_some_and(|album| {
                album.members.iter().any(|member| member.photo_id == mutation.photo_id)
            }),
            None => false,
        };
        let command =
            VersionedCommand::MutatePhotoState { rows: self.photos.clone(), member, mutation };
        let answer = match self.owner.plan(command) {
            Err(answer) => answer,
            Ok(change) => {
                let stored = if self.blocked {
                    Err(MutationError::Persistence)
                } else {
                    match &change {
                        PlannedChange::Photo(change) => {
                            self.photos = change.rows.clone();
                            if let Some(saved) = &change.saved_position {
                                for album in &mut self.albums {
                                    if album.id == saved.album_id {
                                        album.saved_photo_id = Some(saved.photo_id.clone());
                                    }
                                }
                            }
                        }
                        _ => panic!("another plan"),
                    }
                    Ok(())
                };
                self.owner.settle(change, stored)
            }
        };
        match answer {
            Answer::Photo(result) => result,
            _ => panic!("another answer"),
        }
    }

    fn batch(
        &mut self,
        mutation: PhotoStateBatchMutation,
    ) -> Result<PhotoStateBatchResult, MutationError> {
        validate_photo_state_batch_mutation(&mutation)?;
        let command =
            VersionedCommand::MutatePhotoStateBatch { rows: self.photos.clone(), mutation };
        let answer = match self.owner.plan(command) {
            Err(answer) => answer,
            Ok(change) => {
                let stored = if self.blocked {
                    Err(MutationError::Persistence)
                } else {
                    match &change {
                        PlannedChange::Batch(_, change) => self.photos = change.rows.clone(),
                        _ => panic!("another plan"),
                    }
                    Ok(())
                };
                self.owner.settle(change, stored)
            }
        };
        match answer {
            Answer::Batch(result) => result,
            _ => panic!("another answer"),
        }
    }

    fn decide(
        &mut self,
        mutation: CheckedPhotoDecisionMutation,
    ) -> Result<CheckedPhotoDecisionResult, PhotoDecisionWriteError> {
        let mutation = normalize_checked_photo_decision_mutation(mutation)?;
        let command =
            VersionedCommand::MutatePhotoDecisionChecked { rows: self.photos.clone(), mutation };
        let answer = match self.owner.plan(command) {
            Err(answer) => answer,
            Ok(change) => {
                let stored = if self.blocked {
                    Err(MutationError::Persistence)
                } else {
                    match &change {
                        PlannedChange::Decision(change) => self.photos = change.rows.clone(),
                        _ => panic!("another plan"),
                    }
                    Ok(())
                };
                self.owner.settle(change, stored)
            }
        };
        match answer {
            Answer::Decision(result) => result,
            _ => panic!("another answer"),
        }
    }

    fn summary(&self, album_id: &str) -> Option<AlbumSummary> {
        read_album(&self.owner.versions, &self.find(album_id))
    }

    fn version(&self, album_id: &str) -> String {
        self.summary(album_id).unwrap().album_version
    }

    fn photo_version(&self, photo_id: &str) -> String {
        self.owner.versions.photo(photo_id)
    }

    fn members(&self, album_id: &str) -> Vec<String> {
        let album = self.find(album_id).unwrap();
        album.members.iter().map(|member| member.photo_id.clone()).collect()
    }

    fn positions(&self, album_id: &str) -> Vec<i64> {
        let album = self.find(album_id).unwrap();
        album.members.iter().map(|member| member.position).collect()
    }

    fn row(&self, photo_id: &str) -> (String, i64) {
        let row = self.photos.iter().find(|row| row.photo_id == photo_id).unwrap();
        (row.selection.clone(), row.rating)
    }
}

fn select(photo_id: &str, state: SelectionState, expected: Option<SelectionState>) -> PhotoStateMutation {
    PhotoStateMutation {
        photo_id: text(photo_id),
        field: PhotoStateField::SelectionState,
        value: PhotoStateValue::Selection(state),
        expected_current: expected.map(PhotoStateValue::Selection),
        album_id: None,
    }
}

fn rate(photo_id: &str, rating: u8) -> PhotoStateMutation {
    PhotoStateMutation {
        photo_id: text(photo_id),
        field: PhotoStateField::Rating,
        value: PhotoStateValue::Rating(rating),
        expected_current: None,
        album_id: None,
    }
}

fn decision(photo_id: &str, version: &str) -> CheckedPhotoDecisionItem {
    CheckedPhotoDecisionItem { photo_id: text(photo_id), expected_version: text(version) }
}

#[test]
fn effective_writers_advance_versions_while_noops_and_progress_do_not() {
    let mut shelf = Shelf::new(&["one"]);
    let photo_id = "one";
    let initial_photo_version = shelf.photo_version(photo_id);
    shelf.photo_state(rate(photo_id, 0)).unwrap();
    assert_eq!(shelf.photo_version(photo_id), initial_photo_version);
    shelf.photo_state(select(photo_id, SelectionState::Selected, None)).unwrap();
    let changed_photo_version = shelf.photo_version(photo_id);
    assert_ne!(changed_photo_version, initial_photo_version);
    shelf
        .batch(PhotoStateBatchMutation {
            photos: vec![PhotoStateBatchItem {
                photo_id: text(photo_id),
                expected_current: SelectionState::Selected,
            }],
            value: SelectionState::Selected,
        })
        .unwrap();
    assert_eq!(shelf.photo_version(photo_id), changed_photo_version);
    assert!(shelf
        .photo_state(select(photo_id, SelectionState::Rejected, Some(SelectionState::Undecided)))
        .is_err());
    assert_eq!(shelf.photo_version(photo_id), changed_photo_version);
    shelf
        .photo_state(select(photo_id, SelectionState::Undecided, Some(SelectionState::Selected)))
        .unwrap();
    let changed_back_photo_version = shelf.photo_version(photo_id);
    assert_ne!(changed_back_photo_version, initial_photo_version);
    assert_ne!(changed_back_photo_version, changed_photo_version);

    let album_id = shelf.create("Review");
    let initial_album_version = shelf.version(&album_id);
    let named = |shelf: &Shelf, filter: AlbumQueryFilter| {
        let albums: Vec<AlbumEntry> = shelf
            .albums
            .iter()
            .map(|album| AlbumEntry {
                id: album.id.clone(),
                name: album.name.clone(),
                created_at: album.created_at,
            })
            .collect();
        let members: Vec<MemberEntry> = shelf
            .albums
            .iter()
            .flat_map(|album| {
                album.members.iter().map(|member| MemberEntry {
                    album_id: album.id.clone(),
                    photo_id: member.photo_id.clone(),
                    position: member.position,
                })
            })
            .collect();
        create_album_query(&filter, &albums, &members, 10)
    };
    assert_eq!(
        named(&shelf, AlbumQueryFilter::ExactName(text("review"))),
        Ok(vec![album_id.clone()])
    );
    shelf
        .membership(AlbumMembershipMutation::Add {
            album_id: album_id.clone(),
            photo_ids: vec![text(photo_id)],
        })
        .unwrap();
    let membership_version = shelf.version(&album_id);
    assert_ne!(membership_version, initial_album_version);
    assert_eq!(
        named(&shelf, AlbumQueryFilter::ContainsPhoto(text(photo_id))),
        Ok(vec![album_id.clone()])
    );
    let window =
        read_albums(&shelf.owner.versions, &vec![shelf.find(&album_id), shelf.find("removed")]);
    assert_eq!(window[0].as_ref().unwrap().photo_count, 1);
    assert!(window[1].is_none());
    shelf
        .album(AlbumMutation::SetProgress { album_id: album_id.clone(), photo_id: text(photo_id) })
        .unwrap();
    assert_eq!(shelf.version(&album_id), membership_version);
    shelf
        .album(AlbumMutation::Rename { album_id: album_id.clone(), name: text("Review") })
        .unwrap();
    assert_eq!(shelf.version(&album_id), membership_version);
    shelf
        .album(AlbumMutation::Rename { album_id: album_id.clone(), name: text("Final") })
        .unwrap();
    let final_album_version = shelf.version(&album_id);
    assert_ne!(final_album_version, membership_version);

    shelf.blocked = true;
    assert!(shelf.photo_state(rate(photo_id, 5)).is_err());
    assert_eq!(shelf.photo_version(photo_id), changed_back_photo_version);
    assert!(shelf
        .album(AlbumMutation::Rename { album_id: album_id.clone(), name: text("Blocked") })
        .is_err());
    assert_eq!(shelf.version(&album_id), final_album_version);
}

#[test]
fn every_existing_album_writer_participates_in_version_invalidation() {
    let mut shelf = Shelf::new(&["one", "two", "three"]);
    let ids = shelf.ids();
    let album_id = shelf.create("Writers");
    let mut prior = shelf.version(&album_id);
    let add = |id: &String| AlbumMutation::AddMembers {
        album_id: album_id.clone(),
        photo_ids: vec![id.clone()],
    };
    shelf.album(add(&ids[0])).unwrap();
    assert_ne!(shelf.version(&album_id), prior);
    prior = shelf.version(&album_id);
    shelf.album(add(&ids[0])).unwrap();
    assert_eq!(shelf.version(&album_id), prior);
    shelf
        .album(AlbumMutation::AddFolderMembers {
            album_id: album_id.clone(),
            photo_ids: vec![ids[1].clone()],
        })
        .unwrap();
    assert_ne!(shelf.version(&album_id), prior);
    prior = shelf.version(&album_id);
    shelf
        .album(AlbumMutation::Reorder {
            album_id: album_id.clone(),
            photo_ids: vec![ids[1].clone(), ids[0].clone()],
        })
        .unwrap();
    assert_ne!(shelf.version(&album_id), prior);
    prior = shelf.version(&album_id);
    shelf
        .album(AlbumMutation::RemoveMember {
            album_id: album_id.clone(),
            photo_id: ids[0].clone(),
        })
        .unwrap();
    assert_ne!(shelf.version(&album_id), prior);
    prior = shelf.version(&album_id);
    shelf
        .membership(AlbumMembershipMutation::Add {
            album_id: album_id.clone(),
            photo_ids: vec![ids[2].clone()],
        })
        .unwrap();
    assert_ne!(shelf.version(&album_id), prior);
    prior = shelf.version(&album_id);
    shelf
        .membership(AlbumMembershipMutation::RemoveAdded {
            album_id: album_id.clone(),
            photo_ids: vec![ids[2].clone()],
        })
        .unwrap();
    assert_ne!(shelf.version(&album_id), prior);
    prior = shelf.version(&album_id);
    shelf
        .album(AlbumMutation::SetProgress { album_id: album_id.clone(), photo_id: ids[1].clone() })
        .unwrap();
    assert_eq!(shelf.version(&album_id), prior);

    let photo_version = shelf.photo_version(&ids[0]);
    shelf
        .batch(PhotoStateBatchMutation {
            photos: vec![PhotoStateBatchItem {
                photo_id: ids[0].clone(),
                expected_current: SelectionState::Undecided,
            }],
            value: SelectionState::Selected,
        })
        .unwrap();
    assert_ne!(shelf.photo_version(&ids[0]), photo_version);
}

#[test]
fn reopening_persistence_invalidates_process_epoch_versions() {
    let mut shelf = Shelf::new(&["one"]);
    let first = shelf.photo_version("one");
    let album = shelf.create_checked("Epoch").unwrap().album;
    shelf.owner = OwnerState::new(text("epoch-2"));
    assert_ne!(first, shelf.photo_version("one"));
    let reopened = shelf.summary(&album.id).unwrap();
    assert_ne!(album.album_version, reopened.album_version);
    assert_eq!(
        shelf.checked(CheckedAlbumMutation::Rename {
            album_id: album.id.clone(),
            name: album.name.clone(),
            expected_version: album.album_version.clone(),
        }),
        Err(AlbumWriteError::VersionConflict {
            album_id: album.id.clone(),
            current_version: reopened.album_version,
        })
    );
}

#[test]
fn album_summaries_and_browse_target_avoid_member_materialization() {
    let mut shelf = Shelf::new(&["one", "two"]);
    let ids = shelf.ids();
    let album_id = shelf.create("Bounded");
    let summaries = list_album_summaries(&shelf.owner.versions, &shelf.albums);
    assert_eq!(summaries.len(), 1);
    assert_eq!(summaries[0].id, album_id);
    assert_eq!(summaries[0].photo_count, 0);
    assert!(!summaries[0].has_saved_position);
    let target = album_browse_target(&shelf.find(&album_id), &ids);
    assert_eq!(target.as_ref().unwrap().members.len(), 0);
    assert_eq!(target.as_ref().unwrap().saved_photo_id, None);
    shelf
        .album(AlbumMutation::AddMembers { album_id: album_id.clone(), photo_ids: ids.clone() })
        .unwrap();
    shelf
        .album(AlbumMutation::SetProgress { album_id: album_id.clone(), photo_id: ids[1].clone() })
        .unwrap();
    let summaries = list_album_summaries(&shelf.owner.versions, &shelf.albums);
    assert_eq!(summaries[0].photo_count, 2);
    assert!(summaries[0].has_saved_position);
    let target = album_browse_target(&shelf.find(&album_id), &vec![ids[0].clone()]).unwrap();
    assert_eq!(target.members.len(), 2);
    assert_eq!(target.members[0].photo_id, ids[0]);
    assert!(target.members[0].available);
    assert_eq!(target.members[1].photo_id, ids[1]);
    assert!(!target.members[1].available);
    assert_eq!(target.saved_photo_id.as_deref(), Some(ids[1].as_str()));
    assert!(album_browse_target(&shelf.find("00000000-0000-4000-8000-00000000dead"), &ids).is_none());
}

#[test]
fn checked_album_changes_are_guarded_atomic_and_identity_bearing() {
    let mut shelf = Shelf::new(&["one", "two", "three"]);
    let ids = shelf.ids();
    let created = shelf.create_checked("  Picks  ").unwrap();
    let album_id = created.album.id.clone();
    assert_eq!(created.album.name, "Picks");
    assert_eq!(created.album.photo_count, 0);
    assert!(!created.album.has_saved_position);
    assert_eq!(
        shelf.create_checked("pIcKs"),
        Err(AlbumWriteError::NameConflict { name: text("pIcKs"), album_id: album_id.clone() })
    );

    let initial_version = created.album.album_version;
    let add = |photo_ids: Vec<String>, version: &String| CheckedAlbumMutation::AddMembers {
        album_id: album_id.clone(),
        photo_ids,
        expected_version: version.clone(),
    };
    assert_eq!(
        shelf.checked(add(
            (0..=ALBUM_MEMBERSHIP_BATCH_MAX).map(|index| format!("photo-{index}")).collect(),
            &initial_version
        )),
        Err(AlbumWriteError::LimitExceeded {
            limit: ALBUM_MEMBERSHIP_BATCH_MAX,
            actual: ALBUM_MEMBERSHIP_BATCH_MAX + 1,
        })
    );
    let rename = |name: &str, version: &String| CheckedAlbumMutation::Rename {
        album_id: album_id.clone(),
        name: text(name),
        expected_version: version.clone(),
    };
    match shelf.checked(rename("Picks", &initial_version)).unwrap() {
        CheckedAlbumMutationResult::Renamed { album, renamed } => {
            assert!(!renamed);
            assert_eq!(album.album_version, initial_version);
        }
        _ => panic!("expected rename result"),
    }
    assert_eq!(
        shelf.checked(add(vec![ids[0].clone(), text("missing")], &initial_version)),
        Err(AlbumWriteError::PhotoNotFound { photo_id: text("missing") })
    );
    let after_refusal = shelf.summary(&album_id).unwrap();
    assert_eq!(after_refusal.album_version, initial_version);
    assert_eq!(after_refusal.photo_count, 0);

    let added_version = match shelf
        .checked(add(vec![ids[0].clone(), ids[1].clone()], &initial_version))
        .unwrap()
    {
        CheckedAlbumMutationResult::Added { album, added_photo_ids, already_member_photo_ids } => {
            assert_eq!(added_photo_ids, vec![ids[0].clone(), ids[1].clone()]);
            assert!(already_member_photo_ids.is_empty());
            assert_eq!(album.photo_count, 2);
            album.album_version
        }
        _ => panic!("expected add result"),
    };
    assert_ne!(added_version, initial_version);
    assert_eq!(
        shelf.checked(add(vec![ids[0].clone()], &initial_version)),
        Err(AlbumWriteError::VersionConflict {
            album_id: album_id.clone(),
            current_version: added_version.clone(),
        })
    );
    shelf
        .album(AlbumMutation::SetProgress { album_id: album_id.clone(), photo_id: ids[1].clone() })
        .unwrap();
    let removed_version = match shelf
        .checked(CheckedAlbumMutation::RemoveMembers {
            album_id: album_id.clone(),
            photo_ids: vec![ids[1].clone(), ids[2].clone()],
            expected_version: added_version,
        })
        .unwrap()
    {
        CheckedAlbumMutationResult::Removed {
            album,
            removed_photo_ids,
            already_absent_photo_ids,
            saved_photo_id,
        } => {
            assert_eq!(removed_photo_ids, vec![ids[1].clone()]);
            assert_eq!(already_absent_photo_ids, vec![ids[2].clone()]);
            assert_eq!(saved_photo_id, None);
            assert!(!album.has_saved_position);
            album.album_version
        }
        _ => panic!("expected remove result"),
    };
    let readded_version = match shelf
        .checked(add(vec![ids[2].clone(), ids[0].clone()], &removed_version))
        .unwrap()
    {
        CheckedAlbumMutationResult::Added { album, added_photo_ids, already_member_photo_ids } => {
            assert_eq!(added_photo_ids, vec![ids[2].clone()]);
            assert_eq!(already_member_photo_ids, vec![ids[0].clone()]);
            album.album_version
        }
        _ => panic!("expected add result"),
    };
    let reorder = |photo_ids: Vec<String>, version: &String| CheckedAlbumMutation::Reorder {
        album_id: album_id.clone(),
        photo_ids,
        expected_version: version.clone(),
    };
    let reordered_version = match shelf
        .checked(reorder(vec![ids[2].clone(), ids[0].clone()], &readded_version))
        .unwrap()
    {
        CheckedAlbumMutationResult::Reordered { album, ordered_photo_ids, reordered } => {
            assert!(reordered);
            assert_eq!(ordered_photo_ids, vec![ids[2].clone(), ids[0].clone()]);
            album.album_version
        }
        _ => panic!("expected reorder result"),
    };
    assert_eq!(
        shelf.checked(reorder(vec![ids[0].clone()], &reordered_version)),
        Err(AlbumWriteError::MembershipConflict {
            album_id: album_id.clone(),
            current_version: reordered_version.clone(),
        })
    );
    let observed_final_version = match shelf.checked(rename("Final", &reordered_version)).unwrap() {
        CheckedAlbumMutationResult::Renamed { album, renamed } => {
            assert!(renamed);
            assert_eq!(album.name, "Final");
            album.album_version
        }
        _ => panic!("expected rename result"),
    };
    for name in ["Away", "Final"] {
        shelf
            .album(AlbumMutation::Rename { album_id: album_id.clone(), name: text(name) })
            .unwrap();
    }
    let final_version = shelf.version(&album_id);
    assert_eq!(
        shelf.checked(rename("Final", &observed_final_version)),
        Err(AlbumWriteError::VersionConflict {
            album_id: album_id.clone(),
            current_version: final_version.clone(),
        })
    );

    let target = shelf.create_checked("Delete me").unwrap().album;
    assert_eq!(
        shelf
            .checked(CheckedAlbumMutation::Delete {
                album_id: target.id.clone(),
                expected_version: target.album_version,
            })
            .unwrap(),
        CheckedAlbumMutationResult::Deleted { album_id: target.id.clone() }
    );
    assert!(shelf.summary(&target.id).is_none());

    shelf.blocked = true;
    assert_eq!(
        shelf.checked(rename("Blocked", &final_version)),
        Err(AlbumWriteError::Persistence)
    );
    assert_eq!(shelf.version(&album_id), final_version);
}

#[test]
fn checked_reorder_refuses_a_large_album_without_mutation() {
    let names: Vec<String> =
        (0..=ALBUM_MEMBERSHIP_BATCH_MAX).map(|index| format!("photo-{index:03}.JPG")).collect();
    let mut shelf = Shelf::new(&names.iter().map(|name| name.as_str()).collect::<Vec<_>>());
    let ids = shelf.ids();
    let album = shelf.create_checked("Large").unwrap().album;
    shelf
        .album(AlbumMutation::AddFolderMembers {
            album_id: album.id.clone(),
            photo_ids: ids.clone(),
        })
        .unwrap();
    let current = shelf.summary(&album.id).unwrap();
    assert_eq!(
        shelf.checked(CheckedAlbumMutation::Reorder {
            album_id: album.id.clone(),
            photo_ids: ids[..ALBUM_MEMBERSHIP_BATCH_MAX].to_vec(),
            expected_version: current.album_version.clone(),
        }),
        Err(AlbumWriteError::LimitExceeded {
            limit: ALBUM_MEMBERSHIP_BATCH_MAX,
            actual: ALBUM_MEMBERSHIP_BATCH_MAX + 1,
        })
    );
    let after = shelf.summary(&album.id).unwrap();
    assert_eq!(after.album_version, current.album_version);
    assert_eq!(after.photo_count, ids.len());
    assert_eq!(shelf.members(&album.id), ids);
}

#[test]
fn adding_an_existing_album_member_is_idempotent() {
    let mut shelf = Shelf::new(&["one", "two", "three"]);
    let ids = shelf.ids();
    let album_id = shelf.create("Idempotent");
    let add = |photo_ids: Vec<String>| AlbumMutation::AddMembers {
        album_id: album_id.clone(),
        photo_ids,
    };
    shelf.album(add(vec![ids[0].clone(), ids[1].clone()])).unwrap();
    shelf.album(add(vec![ids[1].clone()])).unwrap();
    assert_eq!(shelf.members(&album_id), vec![ids[0].clone(), ids[1].clone()]);
    assert_eq!(shelf.positions(&album_id), vec![0, 1]);
    shelf.album(add(vec![ids[1].clone(), ids[2].clone()])).unwrap();
    assert_eq!(shelf.members(&album_id), ids);
    assert_eq!(shelf.positions(&album_id), vec![0, 1, 2]);
}

#[test]
fn membership_batch_reports_identities_and_compensates_idempotently() {
    let mut shelf = Shelf::new(&["one", "two", "three"]);
    let ids = shelf.ids();
    let album_id = shelf.create("Compensation");
    shelf
        .album(AlbumMutation::AddMembers {
            album_id: album_id.clone(),
            photo_ids: vec![ids[0].clone(), ids[1].clone()],
        })
        .unwrap();
    shelf
        .album(AlbumMutation::SetProgress { album_id: album_id.clone(), photo_id: ids[1].clone() })
        .unwrap();
    let add = shelf
        .membership(AlbumMembershipMutation::Add {
            album_id: album_id.clone(),
            photo_ids: vec![ids[1].clone(), ids[2].clone()],
        })
        .unwrap();
    assert_eq!(add.added_photo_ids, vec![ids[2].clone()]);
    assert_eq!(add.already_member_photo_ids, vec![ids[1].clone()]);
    assert_eq!(shelf.members(&album_id), ids);
    assert_eq!(shelf.positions(&album_id), vec![0, 1, 2]);
    assert_eq!(shelf.find(&album_id).unwrap().saved_photo_id, Some(ids[1].clone()));

    let remove = |id: &str| AlbumMembershipMutation::RemoveAdded {
        album_id: album_id.clone(),
        photo_ids: vec![text(id)],
    };
    let removed = shelf.membership(remove(&ids[1])).unwrap();
    assert_eq!(removed.removed_photo_ids, vec![ids[1].clone()]);
    assert!(removed.already_absent_photo_ids.is_empty());
    assert_eq!(shelf.members(&album_id), vec![ids[0].clone(), ids[2].clone()]);
    assert_eq!(shelf.positions(&album_id), vec![0, 1]);
    assert_eq!(shelf.find(&album_id).unwrap().saved_photo_id, None);

    let repeated = shelf.membership(remove(&ids[1])).unwrap();
    assert!(repeated.removed_photo_ids.is_empty());
    assert_eq!(repeated.already_absent_photo_ids, vec![ids[1].clone()]);
    let tail = shelf.membership(remove(&ids[2])).unwrap();
    assert_eq!(tail.removed_photo_ids, vec![ids[2].clone()]);
    assert!(tail.already_absent_photo_ids.is_empty());
    assert_eq!(shelf.members(&album_id).len(), 1);
    assert_eq!(shelf.find(&album_id).unwrap().saved_photo_id, None);
    assert_eq!(
        shelf.membership(remove("00000000-0000-4000-8000-00000000dead")),
        Err(MutationError::NotFound)
    );
    assert_eq!(shelf.members(&album_id).len(), 1);
    assert_eq!(
        shelf.membership(AlbumMembershipMutation::Add {
            album_id,
            photo_ids: vec![ids[0].clone(), ids[0].clone()],
        }),
        Err(MutationError::Invalid)
    );
}

#[test]
fn folder_members_mutation_is_atomic_and_reports_idempotent_counts() {
    let mut shelf = Shelf::new(&["one", "two", "three"]);
    let ids = shelf.ids();
    let album_id = shelf.create("Folder");
    let add = |photo_ids: Vec<String>| AlbumMutation::AddFolderMembers {
        album_id: album_id.clone(),
        photo_ids,
    };
    let first = shelf.album(add(vec![ids[0].clone(), ids[1].clone()])).unwrap();
    assert_eq!(first.added_count, 2);
    assert_eq!(first.already_member_count, 0);
    let repeated =
        shelf.album(add(vec![ids[1].clone(), ids[2].clone(), ids[0].clone()])).unwrap();
    assert_eq!(repeated.added_count, 1);
    assert_eq!(repeated.already_member_count, 2);
    assert_eq!(shelf.members(&album_id), ids);
    assert_eq!(
        shelf.album(add(vec![ids[0].clone(), ids[0].clone()])),
        Err(MutationError::Conflict)
    );
}

#[test]
fn album_name_uniqueness_folds_ascii_case_only() {
    let mut shelf = Shelf::new(&["one"]);
    shelf.create("春节");
    assert_eq!(
        shelf.album(AlbumMutation::Create { name: text("春节") }),
        Err(MutationError::Conflict)
    );
    shelf.create("Trip");
    assert_eq!(
        shelf.album(AlbumMutation::Create { name: text("trip") }),
        Err(MutationError::Conflict)
    );
    shelf.create("Éclair");
    shelf.create("éclair");
    let names: Vec<String> = shelf.albums.iter().map(|album| album.name.clone()).collect();
    assert!(names.contains(&text("Éclair")));
    assert!(names.contains(&text("éclair")));
}

#[test]
fn album_crud_normalizes_names_and_preserves_rows_across_restart() {
    let mut shelf = Shelf::new(&["one"]);
    let album_id = shelf.create("  Picks  ");
    shelf
        .album(AlbumMutation::AddMembers {
            album_id: album_id.clone(),
            photo_ids: vec![text("one")],
        })
        .unwrap();
    assert_eq!(
        shelf.album(AlbumMutation::Create { name: text("pIcKs") }),
        Err(MutationError::Conflict)
    );
    shelf
        .album(AlbumMutation::Rename { album_id: album_id.clone(), name: text(" Renamed ") })
        .unwrap();
    assert_eq!(shelf.albums[0].name, "Renamed");
    shelf.owner = OwnerState::new(text("epoch-2"));
    assert_eq!(shelf.albums[0].id, album_id);
    assert_eq!(shelf.albums[0].members[0].photo_id, "one");
    shelf.album(AlbumMutation::Delete { album_id }).unwrap();
    assert!(shelf.albums.is_empty());
    assert_eq!(shelf.photos.len(), 1);
}

#[test]
fn membership_batches_are_atomic_and_order_operations_are_dense() {
    let mut shelf = Shelf::new(&["one", "two", "three"]);
    let ids = shelf.ids();
    let album_id = shelf.create("Order");
    let add = |photo_ids: Vec<String>| AlbumMutation::AddMembers {
        album_id: album_id.clone(),
        photo_ids,
    };
    let reorder = |photo_ids: Vec<String>| AlbumMutation::Reorder {
        album_id: album_id.clone(),
        photo_ids,
    };
    assert_eq!(
        shelf.album(add(vec![ids[0].clone(), ids[0].clone()])),
        Err(MutationError::Conflict)
    );
    assert_eq!(shelf.members(&album_id).len(), 0);
    assert_eq!(
        shelf.album(add(vec![ids[0].clone(), text("unknown")])),
        Err(MutationError::NotFound)
    );
    assert_eq!(shelf.members(&album_id).len(), 0);
    assert_eq!(
        shelf.album(add((0..=100).map(|index| format!("unknown-{index}")).collect())),
        Err(MutationError::Conflict)
    );
    shelf.album(add(ids.clone())).unwrap();
    let order = vec![ids[2].clone(), ids[0].clone(), ids[1].clone()];
    assert_eq!(shelf.album(reorder(order.clone())).unwrap().album_id, album_id);
    assert_eq!(shelf.members(&album_id), order);
    assert_eq!(
        shelf.album(reorder(vec![ids[0].clone(), ids[0].clone(), ids[1].clone()])),
        Err(MutationError::Conflict)
    );
    shelf
        .album(AlbumMutation::RemoveMember {
            album_id: album_id.clone(),
            photo_id: ids[0].clone(),
        })
        .unwrap();
    assert_eq!(shelf.positions(&album_id), vec![0, 1]);

    for member in &mut shelf.albums[0].members {
        if member.photo_id == ids[1] {
            member.position = 9;
        }
    }
    assert_eq!(
        shelf.album(reorder(vec![ids[1].clone(), ids[2].clone()])),
        Err(MutationError::Conflict)
    );
}

#[test]
fn progress_state_cas_undo_and_atomic_progress_are_scoped_and_global() {
    let mut shelf = Shelf::new(&["one", "two"]);
    let ids = shelf.ids();
    let album_a = shelf.create("A");
    let album_b = shelf.create("B");
    for album_id in [&album_a, &album_b] {
        shelf
            .album(AlbumMutation::AddMembers {
                album_id: album_id.clone(),
                photo_ids: ids.clone(),
            })
            .unwrap();
    }
    shelf
        .album(AlbumMutation::SetProgress { album_id: album_a.clone(), photo_id: ids[0].clone() })
        .unwrap();
    assert_eq!(shelf.find(&album_a).unwrap().saved_photo_id, Some(ids[0].clone()));
    let result = shelf
        .photo_state(PhotoStateMutation {
            album_id: Some(album_b.clone()),
            ..select(&ids[0], SelectionState::Selected, Some(SelectionState::Undecided))
        })
        .unwrap();
    assert_eq!(
        result.undo.prior_value,
        PhotoStateValue::Selection(SelectionState::Undecided)
    );
    assert_eq!(shelf.row(&ids[0]), (text("selected"), 0));
    assert_eq!(shelf.find(&album_b).unwrap().saved_photo_id, Some(ids[0].clone()));
    assert_eq!(
        shelf.photo_state(PhotoStateMutation {
            value: result.undo.prior_value,
            ..select(&ids[0], SelectionState::Undecided, Some(SelectionState::Undecided))
        }),
        Err(MutationError::Conflict)
    );
    shelf
        .photo_state(PhotoStateMutation {
            photo_id: ids[0].clone(),
            field: PhotoStateField::SelectionState,
            value: result.undo.prior_value,
            expected_current: Some(result.undo.expected_current),
            album_id: None,
        })
        .unwrap();
    assert_eq!(shelf.row(&ids[0]), (text("undecided"), 0));
    shelf
        .photo_state(PhotoStateMutation {
            photo_id: ids[1].clone(),
            field: PhotoStateField::Rating,
            value: PhotoStateValue::Rating(5),
            expected_current: Some(PhotoStateValue::Rating(0)),
            album_id: Some(album_a.clone()),
        })
        .unwrap();
    assert_eq!(shelf.row(&ids[1]), (text("undecided"), 5));
    assert_eq!(shelf.find(&album_a).unwrap().saved_photo_id, Some(ids[1].clone()));
    shelf
        .album(AlbumMutation::RemoveMember {
            album_id: album_a.clone(),
            photo_id: ids[1].clone(),
        })
        .unwrap();
    assert_eq!(shelf.find(&album_a).unwrap().saved_photo_id, None);
}

#[test]
fn batch_photo_state_validation_classifies_malformed_requests_as_invalid() {
    let item = |photo_id: &str| PhotoStateBatchItem {
        photo_id: photo_id.to_owned(),
        expected_current: SelectionState::Undecided,
    };
    let valid = PhotoStateBatchMutation {
        photos: vec![item("one"), item("two")],
        value: SelectionState::Selected,
    };
    assert_eq!(validate_photo_state_batch_mutation(&valid), Ok(()));
    let malformed = [
        PhotoStateBatchMutation { photos: Vec::new(), value: SelectionState::Rejected },
        PhotoStateBatchMutation {
            photos: vec![item("one"), item("one")],
            value: SelectionState::Rejected,
        },
        PhotoStateBatchMutation {
            photos: vec![item("one")],
            value: SelectionState::Undecided,
        },
        PhotoStateBatchMutation {
            photos: (0..=PHOTO_STATE_BATCH_MAX)
                .map(|index| item(&format!("photo-{index}")))
                .collect(),
            value: SelectionState::Selected,
        },
    ];
    for mutation in malformed {
        assert_eq!(
            validate_photo_state_batch_mutation(&mutation),
            Err(MutationError::Invalid)
        );
    }
}

#[test]
fn batch_photo_state_compares_each_photo_and_reports_a_complete_partition() {
    let mut shelf = Shelf::new(&["one", "two"]);
    let ids = shelf.ids();
    shelf
        .photo_state(select(&ids[0], SelectionState::Selected, Some(SelectionState::Undecided)))
        .unwrap();
    let item = |photo_id: &str| PhotoStateBatchItem {
        photo_id: text(photo_id),
        expected_current: SelectionState::Undecided,
    };
    let result = shelf
        .batch(PhotoStateBatchMutation {
            photos: vec![item(&ids[0]), item(&ids[1]), item("missing-photo")],
            value: SelectionState::Rejected,
        })
        .unwrap();
    assert_eq!(
        result.applied,
        vec![PhotoStateBatchApplied {
            photo_id: ids[1].clone(),
            prior_value: SelectionState::Undecided,
        }]
    );
    assert_eq!(
        result.changed_elsewhere,
        vec![PhotoStateBatchChangedElsewhere {
            photo_id: ids[0].clone(),
            current_value: SelectionState::Selected,
        }]
    );
    assert_eq!(
        result.missing,
        vec![PhotoStateBatchMissing { photo_id: text("missing-photo") }]
    );
    assert_eq!(shelf.row(&ids[0]).0, "selected");
    assert_eq!(shelf.row(&ids[1]).0, "rejected");
}

#[test]
fn batch_photo_state_rolls_back_earlier_matches_when_a_later_write_fails() {
    let mut shelf = Shelf::new(&["one", "two"]);
    let before = shelf.photos.clone();
    let version = shelf.photo_version("one");
    shelf.blocked = true;
    let item = |photo_id: &str| PhotoStateBatchItem {
        photo_id: text(photo_id),
        expected_current: SelectionState::Undecided,
    };
    assert_eq!(
        shelf.batch(PhotoStateBatchMutation {
            photos: vec![item("one"), item("two")],
            value: SelectionState::Selected,
        }),
        Err(MutationError::Persistence)
    );
    assert_eq!(shelf.photos, before);
    assert_eq!(shelf.photo_version("one"), version);
}

#[test]
fn checked_photo_decisions_classify_guard_and_invalidate_across_writers() {
    let mut shelf = Shelf::new(&["one", "two", "three"]);
    let ids = shelf.ids();
    let initial = shelf.photo_version(&ids[0]);
    let changed = shelf
        .decide(CheckedPhotoDecisionMutation {
            field: PhotoStateField::SelectionState,
            value: PhotoStateValue::Selection(SelectionState::Selected),
            photos: vec![decision(&ids[0], &initial)],
        })
        .unwrap();
    assert_eq!(changed.counts.changed, 1);
    assert_eq!(changed.counts.unchanged, 0);
    assert_eq!(changed.counts.conflict, 0);
    assert_eq!(changed.counts.missing, 0);
    assert_eq!(
        changed.results,
        vec![CheckedPhotoDecisionItemResult {
            photo_id: ids[0].clone(),
            outcome: CheckedPhotoDecisionOutcome::Changed {
                prior: PhotoDecisionFacts {
                    selection_state: SelectionState::Undecided,
                    rating: 0,
                },
                current: PhotoDecisionSnapshot {
                    selection_state: SelectionState::Selected,
                    rating: 0,
                    decision_version: shelf.photo_version(&ids[0]),
                },
            },
        }]
    );
    assert_eq!(shelf.row(&ids[0]), (text("selected"), 0));
    let selected_version = shelf.photo_version(&ids[0]);
    assert_ne!(selected_version, initial);

    shelf
        .photo_state(select(&ids[0], SelectionState::Undecided, Some(SelectionState::Selected)))
        .unwrap();
    let away_and_back_version = shelf.photo_version(&ids[0]);
    assert_ne!(away_and_back_version, selected_version);
    let away_and_back = shelf
        .decide(CheckedPhotoDecisionMutation {
            field: PhotoStateField::SelectionState,
            value: PhotoStateValue::Selection(SelectionState::Undecided),
            photos: vec![decision(&ids[0], &selected_version)],
        })
        .unwrap();
    assert_eq!(
        away_and_back.results,
        vec![CheckedPhotoDecisionItemResult {
            photo_id: ids[0].clone(),
            outcome: CheckedPhotoDecisionOutcome::Conflict {
                current: PhotoDecisionSnapshot {
                    selection_state: SelectionState::Undecided,
                    rating: 0,
                    decision_version: away_and_back_version,
                },
            },
        }]
    );

    let four = |photos: Vec<CheckedPhotoDecisionItem>| CheckedPhotoDecisionMutation {
        field: PhotoStateField::Rating,
        value: PhotoStateValue::Rating(4),
        photos,
    };
    let two_initial = shelf.photo_version(&ids[1]);
    shelf.decide(four(vec![decision(&ids[1], &two_initial)])).unwrap();
    let photo_two = shelf.photo_version(&ids[1]);
    assert_eq!(shelf.row(&ids[1]).1, 4);
    let three_stale = shelf.photo_version(&ids[2]);
    shelf.photo_state(select(&ids[2], SelectionState::Selected, None)).unwrap();
    let photo_three = shelf.photo_version(&ids[2]);
    assert_ne!(photo_three, three_stale);
    let photo_one = shelf.photo_version(&ids[0]);
    let mixed = shelf
        .decide(four(vec![
            decision(&ids[0], &photo_one),
            decision(&ids[2], &three_stale),
            decision("missing-photo", &photo_three),
            decision(&ids[1], &photo_two),
        ]))
        .unwrap();
    assert_eq!(mixed.counts.changed, 1);
    assert_eq!(mixed.counts.unchanged, 1);
    assert_eq!(mixed.counts.conflict, 1);
    assert_eq!(mixed.counts.missing, 1);
    assert_eq!(
        mixed.results.iter().map(|result| result.photo_id.clone()).collect::<Vec<_>>(),
        vec![ids[0].clone(), ids[2].clone(), text("missing-photo"), ids[1].clone()]
    );
    assert!(matches!(mixed.results[0].outcome, CheckedPhotoDecisionOutcome::Changed { .. }));
    assert_eq!(
        mixed.results[1].outcome,
        CheckedPhotoDecisionOutcome::Conflict {
            current: PhotoDecisionSnapshot {
                selection_state: SelectionState::Selected,
                rating: 0,
                decision_version: photo_three,
            },
        }
    );
    assert_eq!(mixed.results[2].outcome, CheckedPhotoDecisionOutcome::Missing);
    assert_eq!(
        mixed.results[3].outcome,
        CheckedPhotoDecisionOutcome::Unchanged {
            current: PhotoDecisionSnapshot {
                selection_state: SelectionState::Undecided,
                rating: 4,
                decision_version: photo_two.clone(),
            },
        }
    );
    assert_eq!(shelf.photo_version(&ids[1]), photo_two);
    assert_eq!(shelf.row(&ids[2]), (text("selected"), 0));

    shelf.owner = OwnerState::new(text("epoch-2"));
    let fresh = shelf.photo_version(&ids[0]);
    assert_ne!(fresh, photo_one);
    assert_eq!(shelf.row(&ids[0]).1, 4);
    let five = |version: &str| CheckedPhotoDecisionMutation {
        field: PhotoStateField::Rating,
        value: PhotoStateValue::Rating(5),
        photos: vec![decision("one", version)],
    };
    assert_eq!(shelf.decide(five(&photo_one)).unwrap().counts.conflict, 1);
    assert_eq!(shelf.decide(five(&fresh)).unwrap().counts.changed, 1);
}

#[test]
fn checked_photo_decision_refusals_write_nothing_and_change_one_field() {
    let mut shelf = Shelf::new(&["one", "two"]);
    let ids = shelf.ids();
    let first = shelf.photo_version(&ids[0]);
    let rating = |value: u8, photos: Vec<CheckedPhotoDecisionItem>| CheckedPhotoDecisionMutation {
        field: PhotoStateField::Rating,
        value: PhotoStateValue::Rating(value),
        photos,
    };
    assert_eq!(shelf.decide(rating(4, vec![])), Err(PhotoDecisionWriteError::Invalid));
    assert_eq!(
        shelf.decide(CheckedPhotoDecisionMutation {
            field: PhotoStateField::SelectionState,
            value: PhotoStateValue::Rating(4),
            photos: vec![decision(&ids[0], &first)],
        }),
        Err(PhotoDecisionWriteError::Invalid)
    );
    assert_eq!(
        shelf.decide(rating(MAXIMUM_PHOTO_RATING + 1, vec![decision(&ids[0], &first)])),
        Err(PhotoDecisionWriteError::Invalid)
    );
    assert_eq!(
        shelf.decide(rating(4, vec![decision(&ids[0], &first), decision(&ids[0], &first)])),
        Err(PhotoDecisionWriteError::Invalid)
    );
    assert_eq!(
        shelf.decide(rating(4, vec![decision(&ids[0], "")])),
        Err(PhotoDecisionWriteError::Invalid)
    );
    assert_eq!(
        shelf.decide(rating(
            4,
            (0..=PHOTO_STATE_BATCH_MAX)
                .map(|index| decision(&format!("photo-{index}"), &first))
                .collect()
        )),
        Err(PhotoDecisionWriteError::LimitExceeded {
            limit: PHOTO_STATE_BATCH_MAX,
            actual: PHOTO_STATE_BATCH_MAX + 1,
        })
    );
    assert_eq!(shelf.row(&ids[0]), (text("undecided"), 0));
    assert_eq!(shelf.photo_version(&ids[0]), first);

    let album_id = shelf.create("Resume");
    shelf
        .album(AlbumMutation::AddMembers {
            album_id: album_id.clone(),
            photo_ids: vec![ids[0].clone()],
        })
        .unwrap();
    shelf
        .album(AlbumMutation::SetProgress { album_id: album_id.clone(), photo_id: ids[0].clone() })
        .unwrap();
    let before = shelf.summary(&album_id).unwrap();
    assert!(before.has_saved_position);
    let changed = shelf.decide(rating(3, vec![decision(&ids[0], &first)])).unwrap();
    assert_eq!(changed.counts.changed, 1);
    assert_eq!(shelf.row(&ids[0]), (text("undecided"), 3));
    assert_eq!(shelf.summary(&album_id).unwrap(), before);
}

#[test]
fn checked_photo_decision_batch_rolls_back_siblings_and_preserves_versions() {
    let mut shelf = Shelf::new(&["one", "two"]);
    let versions = [shelf.photo_version("one"), shelf.photo_version("two")];
    let before = shelf.photos.clone();
    shelf.blocked = true;
    assert_eq!(
        shelf.decide(CheckedPhotoDecisionMutation {
            field: PhotoStateField::Rating,
            value: PhotoStateValue::Rating(4),
            photos: vec![decision("one", &versions[0]), decision("two", &versions[1])],
        }),
        Err(PhotoDecisionWriteError::Persistence)
    );
    assert_eq!(shelf.photos, before);
    assert_eq!([shelf.photo_version("one"), shelf.photo_version("two")], versions);
}

#[test]
fn tokens_name_their_epoch_kind_identity_and_count() {
    let mut versions = MutationVersions::new(text("epoch"));
    assert_eq!(versions.photo("p"), "epoch:photo:p:0");
    assert_eq!(versions.album("a"), "epoch:album:a:0");
    versions.advance_album("a").unwrap();
    versions.advance_album("a").unwrap();
    versions.advance_photo("p").unwrap();
    assert_eq!(versions.album("a"), "epoch:album:a:2");
    assert_eq!(versions.photo("p"), "epoch:photo:p:1");
    assert_eq!(versions.album_after("a", true), "epoch:album:a:3");
    assert_eq!(versions.photo_after("p", false), "epoch:photo:p:1");
    versions.forget_album("a");
    assert_eq!(versions.album("a"), "epoch:album:a:0");
    assert_ne!(versions.album("same"), versions.photo("same"));
}

#[test]
fn a_version_at_its_end_refuses_every_counted_change() {
    let mut shelf = Shelf::new(&["one"]);
    let album_id = shelf.create("Stuck");
    shelf.owner.versions.album.insert(album_id.clone(), u64::MAX);
    shelf.owner.versions.photo.insert(text("one"), u64::MAX);
    assert!(!shelf.owner.versions.can_advance_album(&album_id));
    assert_eq!(
        shelf.album(AlbumMutation::AddMembers {
            album_id: album_id.clone(),
            photo_ids: vec![text("one")],
        }),
        Err(MutationError::Persistence)
    );
    assert_eq!(
        shelf.membership(AlbumMembershipMutation::Add {
            album_id: album_id.clone(),
            photo_ids: vec![text("one")],
        }),
        Err(MutationError::Persistence)
    );
    assert_eq!(shelf.photo_state(rate("one", 3)), Err(MutationError::Persistence));
    assert!(shelf
        .album(AlbumMutation::Rename { album_id: album_id.clone(), name: text("Stuck") })
        .is_ok());
    let version = shelf.version(&album_id);
    assert_eq!(
        shelf.checked(CheckedAlbumMutation::Rename {
            album_id: album_id.clone(),
            name: text("Moved"),
            expected_version: version,
        }),
        Err(AlbumWriteError::Persistence)
    );
}

#[test]
fn names_are_trimmed_and_measured() {
    let create = |name: &str| normalize_album_mutation(AlbumMutation::Create { name: text(name) });
    assert_eq!(create(" Trip "), Ok(AlbumMutation::Create { name: text("Trip") }));
    assert!(create("   ").is_err());
    let longest = "x".repeat(ALBUM_NAME_MAX);
    assert!(create(&longest).is_ok());
    assert!(create(&format!("{longest}x")).is_err());
    assert_eq!(normalize_album_name(text(" ")), Err(AlbumWriteError::Invalid));
    assert_eq!(normalize_album_name(text(" Trip ")), Ok(text("Trip")));
    let add = |count: usize| {
        normalize_album_mutation(AlbumMutation::AddMembers {
            album_id: text("a"),
            photo_ids: (0..count).map(|index| format!("p-{index}")).collect(),
        })
    };
    assert!(add(ALBUM_ADD_MAX).is_ok());
    assert_eq!(add(ALBUM_ADD_MAX + 1), Err(MutationError::Conflict));
}

#[test]
fn names_stay_apart_when_albums_are_renamed() {
    let mut shelf = Shelf::new(&[]);
    let first = shelf.create("First");
    let second = shelf.create("Second");
    assert_eq!(
        shelf.album(AlbumMutation::Rename { album_id: second.clone(), name: text("FIRST") }),
        Err(MutationError::Conflict)
    );
    shelf
        .album(AlbumMutation::Rename { album_id: first.clone(), name: text("FIRST") })
        .unwrap();
    assert_eq!(
        conflicting_album_id(&shelf.facts("").names, &text("first"), None),
        Some(first.clone())
    );
    assert_eq!(conflicting_album_id(&shelf.facts("").names, &text("first"), Some(&first)), None);
}

#[test]
fn names_with_a_nul_are_measured_and_told_apart_before_it() {
    let mut shelf = Shelf::new(&[]);
    let create = |name: &str| AlbumMutation::Create { name: text(name) };
    assert_eq!(shelf.album(create("\0x")), Err(MutationError::Conflict));
    assert!(matches!(shelf.create_checked("\0x"), Err(AlbumWriteError::Persistence)));

    let first = shelf.create("a\0b");
    assert_eq!(shelf.album(create("A\0c")), Err(MutationError::Conflict));
    assert!(matches!(
        shelf.create_checked("A\0c"),
        Err(AlbumWriteError::NameConflict { album_id, .. }) if album_id == first
    ));
    shelf.create("A\0bb");
    shelf.create("a");
    assert_eq!(
        shelf.album(AlbumMutation::Rename { album_id: first.clone(), name: text("\0") }),
        Err(MutationError::Conflict)
    );
    let version = shelf.version(&first);
    assert!(matches!(
        shelf.checked(CheckedAlbumMutation::Rename {
            album_id: first.clone(),
            expected_version: version.clone(),
            name: text("\0"),
        }),
        Err(AlbumWriteError::Persistence)
    ));
    assert_eq!(shelf.version(&first), version);
    assert_eq!(shelf.find(&first).unwrap().name, "a\0b");
}

#[test]
fn compensation_restores_positions_with_gaps() {
    let mut shelf = Shelf::new(&["one", "two", "three", "four"]);
    let ids = shelf.ids();
    let album_id = shelf.create("Gaps");
    shelf
        .album(AlbumMutation::AddMembers {
            album_id: album_id.clone(),
            photo_ids: vec![ids[0].clone(), ids[1].clone()],
        })
        .unwrap();
    shelf.albums[0].members[0].position = 9;
    shelf.albums[0].members[1].position = 5;
    let before = shelf.find(&album_id).unwrap().members;
    let added = shelf
        .membership(AlbumMembershipMutation::Add {
            album_id: album_id.clone(),
            photo_ids: vec![ids[3].clone(), ids[0].clone(), ids[2].clone()],
        })
        .unwrap();
    assert_eq!(added.added_photo_ids, vec![ids[3].clone(), ids[2].clone()]);
    let positions: Vec<i64> = shelf.albums[0].members.iter().map(|m| m.position).collect();
    assert_eq!(positions, vec![9, 5, 10, 11]);
    shelf
        .membership(AlbumMembershipMutation::RemoveAdded {
            album_id: album_id.clone(),
            photo_ids: added.added_photo_ids,
        })
        .unwrap();
    assert_eq!(shelf.find(&album_id).unwrap().members, before);
}

#[test]
fn ratings_above_the_highest_are_refused_last() {
    let mut shelf = Shelf::new(&["one"]);
    let before = shelf.photos.clone();
    assert_eq!(shelf.photo_state(rate("one", 9)), Err(MutationError::Conflict));
    assert_eq!(shelf.photo_state(rate("two", 9)), Err(MutationError::NotFound));
    let elsewhere = PhotoStateMutation { album_id: Some(text("none")), ..rate("one", 9) };
    assert_eq!(shelf.photo_state(elsewhere), Err(MutationError::NotFound));
    assert_eq!(shelf.photos, before);
    let version = shelf.photo_version("one");
    assert!(shelf.photo_state(rate("one", 5)).is_ok());
    assert_eq!(shelf.row("one").1, 5);
    assert_ne!(shelf.photo_version("one"), version);
}

#[test]
fn unknown_albums_and_photos_are_refused() {
    let mut shelf = Shelf::new(&["one"]);
    assert_eq!(
        shelf.album(AlbumMutation::Delete { album_id: text("none") }),
        Err(MutationError::NotFound)
    );
    assert_eq!(
        shelf.album(AlbumMutation::SetProgress { album_id: text("none"), photo_id: text("one") }),
        Err(MutationError::NotFound)
    );
    assert_eq!(
        shelf.checked(CheckedAlbumMutation::Delete {
            album_id: text("none"),
            expected_version: text("v"),
        }),
        Err(AlbumWriteError::AlbumNotFound { album_id: text("none") })
    );
    assert_eq!(shelf.photo_state(rate("none", 2)), Err(MutationError::NotFound));
    let album_id = shelf.create("Empty");
    assert_eq!(
        shelf.album(AlbumMutation::RemoveMember { album_id, photo_id: text("one") }),
        Err(MutationError::NotFound)
    );
}

#[test]
fn member_lists_keep_their_shape() {
    let member = |id: &str, position: i64| Member {
        photo_id: text(id),
        position,
        removed: id == "hidden",
    };
    let members = vec![member("a", 0), member("hidden", 1), member("b", 2)];
    assert!(is_dense(&members));
    assert_eq!(count_shown(&members), 2);
    assert!(members_are(&members, &vec![text("b"), text("hidden"), text("a")]));
    assert!(!members_are(&members, &vec![text("a"), text("b")]));
    let photos = vec![PhotoPresence { photo_id: text("c"), removed: false }];
    let (next, added, already) =
        extend_members(&members, &photos, &vec![text("b"), text("c")]).unwrap();
    assert_eq!(added, vec![text("c")]);
    assert_eq!(already, vec![text("b")]);
    assert_eq!(next[3], member("c", 3));
    let dropped = drop_member(&members, &text("a")).unwrap();
    assert_eq!(dropped, vec![member("hidden", 0), member("b", 1)]);
    assert!(drop_member(&members, &text("none")).is_none());
    let ordered =
        order_members(&members, &vec![text("b"), text("a"), text("hidden")]);
    assert_eq!(
        ordered.iter().map(|m| (m.photo_id.as_str(), m.position)).collect::<Vec<_>>(),
        vec![("b", 0), ("a", 1), ("hidden", 2)]
    );
    assert_eq!(find_unknown(&photos, &vec![text("c"), text("d")]), Some(&text("d")));
}

#[test]
fn albums_of_a_photo_are_told_by_name() {
    let mut shelf = Shelf::new(&["one"]);
    let late = shelf.create("Zoo");
    let early = shelf.create("Ark");
    for album_id in [&late, &early] {
        shelf
            .album(AlbumMutation::AddMembers {
                album_id: album_id.clone(),
                photo_ids: vec![text("one")],
            })
            .unwrap();
    }
    let list = photo_albums(true, &shelf.albums, &text("one")).unwrap();
    let mut names: Vec<String> = list.iter().map(|entry| entry.album_name.clone()).collect();
    names.sort();
    assert_eq!(names, vec![text("Ark"), text("Zoo")]);
    assert!(photo_albums(false, &shelf.albums, &text("one")).is_none());
}

#[test]
fn plans_and_decisions_can_be_taken_apart() {
    let mut shelf = Shelf::new(&["one"]);
    let album_id = shelf.create("Parts");
    let facts = shelf.facts(&album_id);
    let mutation = AlbumMutation::AddMembers {
        album_id: album_id.clone(),
        photo_ids: vec![text("one")],
    };
    let plan = album_version_plan(&facts.album, &mutation);
    assert!(plan.advance && !plan.deleted);
    let change = mutate_album(&facts, &mutation, &text("unused"), 1).unwrap();
    assert_eq!(change.result.added_count, 1);
    let change = mutate_album_membership(
        &facts,
        &AlbumMembershipMutation::Add { album_id: album_id.clone(), photo_ids: vec![text("one")] },
    )
    .unwrap();
    assert_eq!(change.next.members.len(), 1);
    let mut versions = MutationVersions::new(text("e"));
    let change = mutate_album_checked(
        &versions,
        &facts,
        CheckedAlbumMutation::Delete {
            album_id: album_id.clone(),
            expected_version: versions.album(&album_id),
        },
    )
    .unwrap();
    assert_eq!(
        settle_checked_album(&mut versions, change, Err(MutationError::Conflict)),
        Err(AlbumWriteError::Persistence)
    );
}
