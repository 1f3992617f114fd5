//! The life of the state owner: how it is opened, which commands it takes, and
//! how it is shut down.
use crate::error::{PersistenceError, StateError};
use vstd::prelude::*;

verus! {

/// What is known when the state owner is opened: whether the database was created
/// for it, whether a sidecar is there, and whether the database could be locked.
/// `lock` is none where it was not tried, because of a sidecar.
#[derive(Debug)]
pub struct OpenFacts {
    pub created: bool,
    pub sidecars: Result<bool, StateError>,
    pub lock: Option<Result<(), StateError>>,
}

/// What refuses to open the state owner, and whether the database that was
/// created for it is removed again.
pub struct OpenRefusal {
    pub error: PersistenceError,
    pub remove_created: bool,
}

/// How a refusal of a file is told: a sidecar that is there waits for its recovery.
pub open spec fn state_error_of(error: StateError) -> PersistenceError {
    match error {
        StateError::SidecarPresent => PersistenceError::RecoveryRequired,
        other => PersistenceError::State(other),
    }
}

/// Decides whether the state owner may be opened: not while a sidecar waits for
/// its recovery, and not on a database that another process holds. A database
/// that was created for nothing is removed again.
pub fn open_refusal(facts: &OpenFacts) -> (refusal: Option<OpenRefusal>)
    ensures
        match facts.sidecars {
            Err(error) => refusal == Some(
                OpenRefusal { error: state_error_of(error), remove_created: false },
            ),
            Ok(true) => refusal == Some(
                OpenRefusal {
                    error: PersistenceError::RecoveryRequired,
                    remove_created: facts.created,
                },
            ),
            Ok(false) => match facts.lock {
                Some(Err(error)) => refusal == Some(
                    OpenRefusal {
                        error: state_error_of(error),
                        remove_created: facts.created,
                    },
                ),
                _ => refusal is None,
            },
        },
{
    match &facts.sidecars {
        Err(error) => Some(
            OpenRefusal {
                error: PersistenceError::from(copy_state_error(error)),
                remove_created: false,
            },
        ),
        Ok(true) => Some(
            OpenRefusal {
                error: PersistenceError::RecoveryRequired,
                remove_created: facts.created,
            },
        ),
        Ok(false) => match &facts.lock {
            Some(Err(error)) => Some(
                OpenRefusal {
                    error: PersistenceError::from(copy_state_error(error)),
                    remove_created: facts.created,
                },
            ),
            _ => None,
        },
    }
}

fn copy_state_error(error: &StateError) -> (copy: StateError)
    ensures
        copy == *error,
{
    match error {
        StateError::InvalidStatePath => StateError::InvalidStatePath,
        StateError::InvalidDatabaseName => StateError::InvalidDatabaseName,
        StateError::UnderLibraryRoot => StateError::UnderLibraryRoot,
        StateError::UnsafeStateDirectory => StateError::UnsafeStateDirectory,
        StateError::UnsafeDatabase => StateError::UnsafeDatabase,
        StateError::ChangedDatabase => StateError::ChangedDatabase,
        StateError::UnsafeSidecar => StateError::UnsafeSidecar,
        StateError::SidecarPresent => StateError::SidecarPresent,
        StateError::Io(message) => StateError::Io(*message),
    }
}

/// What the owner's thread answered when it started, and how it ended where it
/// did not: `answer` is none where the thread was gone before it answered.
pub fn startup_result(answer: Option<Result<(), PersistenceError>>, panicked: bool) -> (result:
    Result<(), PersistenceError>)
    ensures
        result == (match answer {
            Some(Ok(_)) => Ok::<(), PersistenceError>(()),
            Some(Err(error)) => if panicked {
                Err::<(), PersistenceError>(PersistenceError::OwnerStopped)
            } else {
                Err::<(), PersistenceError>(error)
            },
            None => Err::<(), PersistenceError>(PersistenceError::OwnerStopped),
        }),
{
    match answer {
        Some(Ok(_)) => Ok(()),
        Some(Err(error)) => if panicked {
            Err(PersistenceError::OwnerStopped)
        } else {
            Err(error)
        },
        None => Err(PersistenceError::OwnerStopped),
    }
}

/// Whether the state owner takes commands.
#[derive(Clone, Copy, Debug, PartialEq, Eq, Structural)]
pub enum AdmissionState {
    Open,
    Closing,
    Closed,
}

/// The life of a state owner: whether it takes commands, and how its shutdown
/// ended, once it has.
#[derive(Debug)]
pub struct Lifecycle {
    pub state: AdmissionState,
    pub shutdown: Option<Result<(), PersistenceError>>,
}

/// What became of putting a command into the owner's queue.
#[derive(Clone, Copy, Debug, PartialEq, Eq, Structural)]
pub enum Enqueued {
    Accepted,
    Full,
    Disconnected,
}

/// What a command is answered at once.
pub open spec fn answered(state: AdmissionState, enqueued: Enqueued) -> Result<
    (),
    PersistenceError,
> {
    if state != AdmissionState::Open {
        Err(PersistenceError::Closed)
    } else {
        match enqueued {
            Enqueued::Accepted => Ok(()),
            Enqueued::Full => Err(PersistenceError::Saturated),
            Enqueued::Disconnected => Err(PersistenceError::OwnerStopped),
        }
    }
}

/// What a shutdown is to do next.
#[derive(Debug)]
pub enum ShutdownStep {
    /// It has ended before, with this result.
    Ended(Result<(), PersistenceError>),
    /// The queue is to be closed, the owner to be waited for.
    Join,
}

fn copy_result(result: &Result<(), PersistenceError>) -> (copy: Result<(), PersistenceError>)
    requires
        *result matches Err(error) ==> error == PersistenceError::OwnerStopped,
    ensures
        copy == *result,
{
    match result {
        Ok(done) => Ok(*done),
        Err(_) => Err(PersistenceError::OwnerStopped),
    }
}

impl Lifecycle {
    /// A shutdown has ended exactly when the owner is closed, and it can fail in
    /// one way alone.
    pub open spec fn wf(&self) -> bool {
        &&& self.shutdown is Some <==> self.state == AdmissionState::Closed
        &&& self.shutdown matches Some(Err(error)) ==> error == PersistenceError::OwnerStopped
    }

    /// The life of an owner that was just opened.
    pub fn new() -> (life: Lifecycle)
        ensures
            life.wf(),
            life.state == AdmissionState::Open,
            life.shutdown is None,
    {
        Lifecycle { state: AdmissionState::Open, shutdown: None }
    }

    /// Whether a command may be put into the queue now.
    pub fn admits(&self) -> (result: Result<(), PersistenceError>)
        ensures
            result == (if self.state == AdmissionState::Open {
                Ok::<(), PersistenceError>(())
            } else {
                Err::<(), PersistenceError>(PersistenceError::Closed)
            }),
    {
        match self.state {
            AdmissionState::Open => Ok(()),
            _ => Err(PersistenceError::Closed),
        }
    }

    /// What a command is answered at once: none if it was accepted, and its answer
    /// comes from the owner. `enqueued` is what became of it where it was put into
    /// the queue.
    pub fn submit(&self, enqueued: Enqueued) -> (result: Result<(), PersistenceError>)
        ensures
            result == answered(self.state, enqueued),
    {
        match self.admits() {
            Ok(_) => match enqueued {
                Enqueued::Accepted => Ok(()),
                Enqueued::Full => Err(PersistenceError::Saturated),
                Enqueued::Disconnected => Err(PersistenceError::OwnerStopped),
            },
            Err(error) => Err(error),
        }
    }

    /// Begins a shutdown: no command is taken from here on. One that has ended
    /// before is answered with its result.
    pub fn begin_shutdown(&mut self) -> (step: ShutdownStep)
        requires
            old(self).wf(),
        ensures
            final(self).wf(),
            final(self).state != AdmissionState::Open,
            shutdown_begun(*old(self), *final(self), step),
    {
        match &self.shutdown {
            Some(result) => ShutdownStep::Ended(copy_result(result)),
            None => {
                self.state = AdmissionState::Closing;
                ShutdownStep::Join
            },
        }
    }

    /// Ends a shutdown: the owner has drained its queue, or panicked.
    pub fn finish_shutdown(&mut self, panicked: bool) -> (result: Result<(), PersistenceError>)
        requires
            old(self).wf(),
            old(self).state == AdmissionState::Closing,
        ensures
            final(self).wf(),
            shutdown_finished(*final(self), panicked, result),
    {
        let result: Result<(), PersistenceError> = if panicked {
            Err(PersistenceError::OwnerStopped)
        } else {
            Ok(())
        };
        self.state = AdmissionState::Closed;
        self.shutdown = Some(copy_result(&result));
        result
    }
}

/// Once a shutdown has begun, every command is refused as closed, whatever the
/// queue would say; before, a full queue and an owner that is gone are told apart.
pub proof fn law_shutdown_refuses_every_command(state: AdmissionState, enqueued: Enqueued)
    ensures
        state != AdmissionState::Open ==> answered(state, enqueued) == Err::<(), PersistenceError>(
            PersistenceError::Closed,
        ),
        answered(AdmissionState::Open, Enqueued::Full) == Err::<(), PersistenceError>(
            PersistenceError::Saturated,
        ),
        answered(AdmissionState::Open, Enqueued::Disconnected) == Err::<(), PersistenceError>(
            PersistenceError::OwnerStopped,
        ),
{
}

/// The commands that the owner has taken, in order. Each one gets the next
/// number.
#[derive(Clone, Copy, Debug, PartialEq, Eq, Structural)]
pub struct CommandSequence {
    pub taken: u64,
}

impl CommandSequence {
    /// No command taken yet.
    pub fn new() -> (sequence: CommandSequence)
        ensures
            sequence.taken == 0,
    {
        CommandSequence { taken: 0 }
    }

    /// Takes a command: its number, which no other command of this owner has.
    pub fn take(&mut self) -> (number: u64)
        requires
            old(self).taken < u64::MAX,
        ensures
            number == old(self).taken + 1,
            final(self).taken == number,
    {
        self.taken = self.taken + 1;
        self.taken
    }
}

/// A database with files beside it that wait to be recovered is not opened, and neither
/// is one that cannot be locked; what was created for it is removed again, unless the
/// files beside it could not be looked at.
pub proof fn law_databases_are_opened_where_safe(
    facts: OpenFacts,
    refusal: Option<OpenRefusal>,
)
    requires
        call_ensures(open_refusal, (&facts,), refusal),
    ensures
        facts.sidecars == Ok::<bool, StateError>(true) ==> refusal is Some && refusal->0.error
            == PersistenceError::RecoveryRequired && refusal->0.remove_created == facts.created,
        facts.sidecars is Err ==> refusal is Some && !refusal->0.remove_created,
        facts.sidecars is Err && facts.sidecars->Err_0 == StateError::SidecarPresent
            ==> refusal->0.error == PersistenceError::RecoveryRequired,
        facts.sidecars is Err && facts.sidecars->Err_0 != StateError::SidecarPresent
            ==> refusal->0.error == PersistenceError::State(facts.sidecars->Err_0),
        facts.sidecars == Ok::<bool, StateError>(false) && facts.lock is Some && facts.lock->0
            is Err ==> refusal is Some && refusal->0.remove_created == facts.created,
        facts.sidecars == Ok::<bool, StateError>(false) && (facts.lock is None || facts.lock->0
            is Ok) ==> refusal is None,
{
}

/// An owner that answers before it panics is told by its answer, and one that does not
/// as stopped.
pub proof fn law_starts_are_told_by_the_owner(
    answer: Option<Result<(), PersistenceError>>,
    panicked: bool,
    result: Result<(), PersistenceError>,
)
    requires
        call_ensures(startup_result, (answer, panicked), result),
    ensures
        answer is None ==> result == Err::<(), PersistenceError>(PersistenceError::OwnerStopped),
        answer is Some && answer->0 is Ok ==> result is Ok,
        answer is Some && answer->0 is Err && panicked ==> result == Err::<(), PersistenceError>(
            PersistenceError::OwnerStopped,
        ),
        answer is Some && answer->0 is Err && !panicked ==> result is Err && result->Err_0
            == answer->0->Err_0,
{
}

/// A command is accepted only by an open owner whose queue took it.
pub proof fn law_commands_are_accepted_while_open(
    life: Lifecycle,
    enqueued: Enqueued,
    result: Result<(), PersistenceError>,
    admitted: Result<(), PersistenceError>,
)
    requires
        call_ensures(Lifecycle::submit, (&life, enqueued), result),
        call_ensures(Lifecycle::admits, (&life,), admitted),
    ensures
        result is Ok <==> life.state == AdmissionState::Open && enqueued == Enqueued::Accepted,
        admitted is Ok <==> life.state == AdmissionState::Open,
        admitted is Err ==> admitted->Err_0 == PersistenceError::Closed,
        life.state == AdmissionState::Open && enqueued == Enqueued::Full ==> result == Err::<
            (),
            PersistenceError,
        >(PersistenceError::Saturated),
        life.state == AdmissionState::Open && enqueued == Enqueued::Disconnected ==> result
            == Err::<(), PersistenceError>(PersistenceError::OwnerStopped),
        life.state != AdmissionState::Open ==> result == Err::<(), PersistenceError>(
            PersistenceError::Closed,
        ),
{
}

/// What beginning a shutdown does: one that has ended is answered with its result, and
/// any other one is to be waited for.
pub open spec fn shutdown_begun(before: Lifecycle, after: Lifecycle, step: ShutdownStep) -> bool {
    match before.shutdown {
        Some(result) => step == ShutdownStep::Ended(result) && after == before,
        None => step == ShutdownStep::Join && after.state == AdmissionState::Closing
            && after.shutdown is None,
    }
}

/// What ending a shutdown does: its result is kept.
pub open spec fn shutdown_finished(
    after: Lifecycle,
    panicked: bool,
    result: Result<(), PersistenceError>,
) -> bool {
    &&& after.state == AdmissionState::Closed
    &&& after.shutdown == Some(result)
    &&& result == (if panicked {
        Err::<(), PersistenceError>(PersistenceError::OwnerStopped)
    } else {
        Ok::<(), PersistenceError>(())
    })
}

/// A shutdown ends once: whoever shuts down again is answered with the result of the
/// first, which is an error exactly where the owner panicked.
pub proof fn law_shutdowns_end_once(
    first: Lifecycle,
    closing: Lifecycle,
    step: ShutdownStep,
    closed: Lifecycle,
    panicked: bool,
    result: Result<(), PersistenceError>,
    last: Lifecycle,
    again: ShutdownStep,
)
    requires
        first.shutdown is None,
        shutdown_begun(first, closing, step),
        shutdown_finished(closed, panicked, result),
        shutdown_begun(closed, last, again),
    ensures
        step == ShutdownStep::Join,
        closing.state == AdmissionState::Closing,
        result is Err <==> panicked,
        result is Err ==> result->Err_0 is OwnerStopped,
        again == ShutdownStep::Ended(result),
        last == closed,
        last.state == AdmissionState::Closed,
{
}

} // verus!
