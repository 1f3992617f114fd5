use slipstream_state::error::{PersistenceError, StateError};
use slipstream_state::owner::{
    open_refusal, startup_result, AdmissionState, CommandSequence, Enqueued, Lifecycle, OpenFacts,
    ShutdownStep,
};

#[test]
fn saturation_and_shutdown_drain_are_explicit() {
    let mut life = Lifecycle::new();
    assert!(life.submit(Enqueued::Accepted).is_ok());
    assert!(matches!(
        life.submit(Enqueued::Full),
        Err(PersistenceError::Saturated)
    ));
    assert!(matches!(
        life.submit(Enqueued::Disconnected),
        Err(PersistenceError::OwnerStopped)
    ));
    assert!(matches!(life.begin_shutdown(), ShutdownStep::Join));
    assert_eq!(life.state, AdmissionState::Closing);
    assert!(matches!(life.admits(), Err(PersistenceError::Closed)));
    assert!(life.finish_shutdown(false).is_ok());
    assert!(matches!(life.begin_shutdown(), ShutdownStep::Ended(Ok(()))));
    assert!(matches!(
        life.submit(Enqueued::Accepted),
        Err(PersistenceError::Closed)
    ));
}

#[test]
fn shutdown_rejects_library_mutations_after_lifecycle_close() {
    let mut life = Lifecycle::new();
    assert!(matches!(life.begin_shutdown(), ShutdownStep::Join));
    assert!(life.finish_shutdown(false).is_ok());
    for enqueued in [Enqueued::Accepted, Enqueued::Full, Enqueued::Disconnected] {
        assert!(matches!(life.submit(enqueued), Err(PersistenceError::Closed)));
    }
}

#[test]
fn an_owner_that_panicked_is_told_by_every_shutdown() {
    let mut life = Lifecycle::new();
    assert!(matches!(life.begin_shutdown(), ShutdownStep::Join));
    assert!(matches!(
        life.finish_shutdown(true),
        Err(PersistenceError::OwnerStopped)
    ));
    assert!(matches!(
        life.begin_shutdown(),
        ShutdownStep::Ended(Err(PersistenceError::OwnerStopped))
    ));
    assert_eq!(life.state, AdmissionState::Closed);
}

#[test]
fn sidecars_and_locks_refuse_to_open() {
    let told = |created: bool, sidecars, lock| {
        open_refusal(&OpenFacts { created, sidecars, lock })
    };
    assert!(told(true, Ok(false), Some(Ok(()))).is_none());
    assert!(told(false, Ok(false), None).is_none());
    for created in [true, false] {
        let refusal = told(created, Ok(true), None).unwrap();
        assert!(matches!(refusal.error, PersistenceError::RecoveryRequired));
        assert_eq!(refusal.remove_created, created);
        let refusal = told(created, Ok(false), Some(Err(StateError::Io("held")))).unwrap();
        assert!(matches!(
            refusal.error,
            PersistenceError::State(StateError::Io("held"))
        ));
        assert_eq!(refusal.remove_created, created);
    }
    let refusal = told(true, Err(StateError::UnsafeSidecar), None).unwrap();
    assert!(matches!(
        refusal.error,
        PersistenceError::State(StateError::UnsafeSidecar)
    ));
    assert!(!refusal.remove_created);
    let refusal = told(true, Err(StateError::SidecarPresent), None).unwrap();
    assert!(matches!(refusal.error, PersistenceError::RecoveryRequired));
}

#[test]
fn startup_tells_how_the_owner_began() {
    assert!(startup_result(Some(Ok(())), false).is_ok());
    assert!(matches!(
        startup_result(Some(Err(PersistenceError::RootMismatch)), false),
        Err(PersistenceError::RootMismatch)
    ));
    assert!(matches!(
        startup_result(Some(Err(PersistenceError::RootMismatch)), true),
        Err(PersistenceError::OwnerStopped)
    ));
    assert!(matches!(
        startup_result(None, false),
        Err(PersistenceError::OwnerStopped)
    ));
}

#[test]
fn commands_are_numbered_in_order() {
    let mut sequence = CommandSequence::new();
    assert_eq!(sequence.take(), 1);
    assert_eq!(sequence.take(), 2);
    assert_eq!(sequence.taken, 2);
}
