//! The refusals and failures of the state owner, their texts, and how one kind
//! of failure is told as another.
use vstd::prelude::*;
use vstd::string::*;

verus! {

/// Why a state directory or a database file was not admitted.
#[derive(Clone, Debug, PartialEq, Eq)]
pub enum StateError {
    InvalidStatePath,
    InvalidDatabaseName,
    UnderLibraryRoot,
    UnsafeStateDirectory,
    UnsafeDatabase,
    ChangedDatabase,
    UnsafeSidecar,
    SidecarPresent,
    Io(&'static str),
}

impl StateError {
    /// The text of the error.
    pub open spec fn text(&self) -> Seq<char> {
        match self {
            StateError::InvalidStatePath => "SQLite state path is invalid"@,
            StateError::InvalidDatabaseName => "SQLite database name is invalid"@,
            StateError::UnderLibraryRoot =>
                "SQLite database must be outside the read-only Photo Library root"@,
            StateError::UnsafeStateDirectory => "SQLite state directory is not safely owned"@,
            StateError::UnsafeDatabase => "SQLite database inode is not safely owned"@,
            StateError::ChangedDatabase => "SQLite database inode changed before startup"@,
            StateError::UnsafeSidecar => "SQLite sidecar is not safely owned"@,
            StateError::SidecarPresent => "SQLite sidecar requires operator recovery"@,
            StateError::Io(message) => message@,
        }
    }

    /// The text shown for the error.
    pub fn message(&self) -> (message: String)
        ensures
            message@ == self.text(),
    {
        let text: &str = match self {
            StateError::InvalidStatePath => "SQLite state path is invalid",
            StateError::InvalidDatabaseName => "SQLite database name is invalid",
            StateError::UnderLibraryRoot =>
                "SQLite database must be outside the read-only Photo Library root",
            StateError::UnsafeStateDirectory => "SQLite state directory is not safely owned",
            StateError::UnsafeDatabase => "SQLite database inode is not safely owned",
            StateError::ChangedDatabase => "SQLite database inode changed before startup",
            StateError::UnsafeSidecar => "SQLite sidecar is not safely owned",
            StateError::SidecarPresent => "SQLite sidecar requires operator recovery",
            StateError::Io(message) => *message,
        };
        text.to_owned()
    }
}

/// Why the state owner refused or failed a command.
#[derive(Clone, Debug)]
pub enum PersistenceError {
    Saturated,
    Closed,
    State(StateError),
    RecoveryRequired,
    UnsupportedSchema,
    NewerSchema,
    RootMismatch,
    InvalidLegacyData,
    InvalidExpansion,
    InvalidRecovery,
    InvalidRecoveryMapping { original_id: String, reason: &'static str },
    IdCollision,
    Storage,
    OwnerStopped,
}

impl PersistenceError {
    /// The text of the error.
    pub open spec fn text(&self) -> Seq<char> {
        match self {
            PersistenceError::Saturated => "SQLite persistence queue is saturated"@,
            PersistenceError::Closed => "SQLite persistence is closed"@,
            PersistenceError::State(error) => error.text(),
            PersistenceError::RecoveryRequired => "SQLite state requires operator recovery"@,
            PersistenceError::UnsupportedSchema => "SQLite schema is unsupported"@,
            PersistenceError::NewerSchema =>
                "SQLite schema version is newer than this Slipstream build"@,
            PersistenceError::RootMismatch =>
                "SQLite database belongs to a different Photo Library root"@,
            PersistenceError::InvalidLegacyData => "SQLite legacy data cannot be migrated safely"@,
            PersistenceError::InvalidExpansion =>
                "Photo Library expansion could not be proven safely"@,
            PersistenceError::InvalidRecovery =>
                "Original File recovery could not be proven safely"@,
            PersistenceError::InvalidRecoveryMapping { .. } =>
                "Original File recovery could not be proven safely"@,
            PersistenceError::IdCollision =>
                "SQLite identity allocation collided with existing state"@,
            PersistenceError::Storage => "SQLite persistence failed"@,
            PersistenceError::OwnerStopped => "SQLite persistence owner stopped unexpectedly"@,
        }
    }

    /// The text shown for the error.
    pub fn message(&self) -> (message: String)
        ensures
            message@ == self.text(),
    {
        let text: &str = match self {
            PersistenceError::Saturated => "SQLite persistence queue is saturated",
            PersistenceError::Closed => "SQLite persistence is closed",
            PersistenceError::State(error) => {
                return error.message();
            },
            PersistenceError::RecoveryRequired => "SQLite state requires operator recovery",
            PersistenceError::UnsupportedSchema => "SQLite schema is unsupported",
            PersistenceError::NewerSchema =>
                "SQLite schema version is newer than this Slipstream build",
            PersistenceError::RootMismatch =>
                "SQLite database belongs to a different Photo Library root",
            PersistenceError::InvalidLegacyData => "SQLite legacy data cannot be migrated safely",
            PersistenceError::InvalidExpansion =>
                "Photo Library expansion could not be proven safely",
            PersistenceError::InvalidRecovery =>
                "Original File recovery could not be proven safely",
            PersistenceError::InvalidRecoveryMapping { .. } =>
                "Original File recovery could not be proven safely",
            PersistenceError::IdCollision =>
                "SQLite identity allocation collided with existing state",
            PersistenceError::Storage => "SQLite persistence failed",
            PersistenceError::OwnerStopped => "SQLite persistence owner stopped unexpectedly",
        };
        text.to_owned()
    }
}

impl From<StateError> for PersistenceError {
    fn from(value: StateError) -> (error: Self) {
        match value {
            StateError::SidecarPresent => PersistenceError::RecoveryRequired,
            other => PersistenceError::State(other),
        }
    }
}

impl vstd::std_specs::convert::FromSpecImpl<StateError> for PersistenceError {
    open spec fn obeys_from_spec() -> bool {
        true
    }

    open spec fn from_spec(value: StateError) -> Self {
        match value {
            StateError::SidecarPresent => PersistenceError::RecoveryRequired,
            other => PersistenceError::State(other),
        }
    }
}

/// Why an Album or Photo mutation was refused or failed.
#[derive(Clone, Copy, Debug, PartialEq, Eq, Structural)]
pub enum MutationError {
    /// The request itself is malformed: an empty, over-limit, or duplicate
    /// address set. It is refused before any state is read or written.
    Invalid,
    NotFound,
    Conflict,
    Persistence,
    Saturated,
    Closed,
}

impl MutationError {
    /// The text of the error.
    pub open spec fn text(&self) -> Seq<char> {
        match self {
            MutationError::Invalid => "Mutation request is not valid"@,
            MutationError::NotFound => "Mutation target not found"@,
            MutationError::Conflict => "Mutation conflicts with current state"@,
            MutationError::Persistence => "Mutation could not be persisted"@,
            MutationError::Saturated => "SQLite persistence queue is saturated"@,
            MutationError::Closed => "SQLite persistence is closed"@,
        }
    }

    /// The text shown for the error.
    pub fn message(&self) -> (message: String)
        ensures
            message@ == self.text(),
    {
        let text: &str = match self {
            MutationError::Invalid => "Mutation request is not valid",
            MutationError::NotFound => "Mutation target not found",
            MutationError::Conflict => "Mutation conflicts with current state",
            MutationError::Persistence => "Mutation could not be persisted",
            MutationError::Saturated => "SQLite persistence queue is saturated",
            MutationError::Closed => "SQLite persistence is closed",
        };
        text.to_owned()
    }
}

/// Why a checked Album creation or change was refused or failed. The variants
/// that name an identity let a caller answer without reading the state again.
#[derive(Clone, Debug, PartialEq, Eq)]
pub enum AlbumWriteError {
    Invalid,
    AlbumNotFound { album_id: String },
    PhotoNotFound { photo_id: String },
    VersionConflict { album_id: String, current_version: String },
    NameConflict { name: String, album_id: String },
    MembershipConflict { album_id: String, current_version: String },
    LimitExceeded { limit: usize, actual: usize },
    Persistence,
    Saturated,
    Closed,
}

impl AlbumWriteError {
    /// The text of the error.
    pub open spec fn text(&self) -> Seq<char> {
        match self {
            AlbumWriteError::Invalid => "Album write request is not valid"@,
            AlbumWriteError::AlbumNotFound { .. } => "Album was not found"@,
            AlbumWriteError::PhotoNotFound { .. } => "Photo was not found"@,
            AlbumWriteError::VersionConflict { .. } =>
                "Album version conflicts with current state"@,
            AlbumWriteError::NameConflict { .. } => "Album name already exists"@,
            AlbumWriteError::MembershipConflict { .. } =>
                "Album order does not match current membership"@,
            AlbumWriteError::LimitExceeded { .. } => "Album write exceeds its limit"@,
            AlbumWriteError::Persistence => "Album write could not be persisted"@,
            AlbumWriteError::Saturated => "SQLite persistence queue is saturated"@,
            AlbumWriteError::Closed => "SQLite persistence is closed"@,
        }
    }

    /// The text shown for the error.
    pub fn message(&self) -> (message: String)
        ensures
            message@ == self.text(),
    {
        let text: &str = match self {
            AlbumWriteError::Invalid => "Album write request is not valid",
            AlbumWriteError::AlbumNotFound { .. } => "Album was not found",
            AlbumWriteError::PhotoNotFound { .. } => "Photo was not found",
            AlbumWriteError::VersionConflict { .. } =>
                "Album version conflicts with current state",
            AlbumWriteError::NameConflict { .. } => "Album name already exists",
            AlbumWriteError::MembershipConflict { .. } =>
                "Album order does not match current membership",
            AlbumWriteError::LimitExceeded { .. } => "Album write exceeds its limit",
            AlbumWriteError::Persistence => "Album write could not be persisted",
            AlbumWriteError::Saturated => "SQLite persistence queue is saturated",
            AlbumWriteError::Closed => "SQLite persistence is closed",
        };
        text.to_owned()
    }
}

/// Why a batch of checked Photo decisions was refused or failed. Conflicting
/// and missing Photos are results of their own, not errors.
#[derive(Clone, Copy, Debug, PartialEq, Eq, Structural)]
pub enum PhotoDecisionWriteError {
    Invalid,
    LimitExceeded { limit: usize, actual: usize },
    Persistence,
    Saturated,
    Closed,
}

impl PhotoDecisionWriteError {
    /// The text of the error.
    pub open spec fn text(&self) -> Seq<char> {
        match self {
            PhotoDecisionWriteError::Invalid => "Photo decision write request is not valid"@,
            PhotoDecisionWriteError::LimitExceeded { .. } =>
                "Photo decision write exceeds its limit"@,
            PhotoDecisionWriteError::Persistence => "Photo decision write could not be persisted"@,
            PhotoDecisionWriteError::Saturated => "SQLite persistence queue is saturated"@,
            PhotoDecisionWriteError::Closed => "SQLite persistence is closed"@,
        }
    }

    /// The text shown for the error.
    pub fn message(&self) -> (message: String)
        ensures
            message@ == self.text(),
    {
        let text: &str = match self {
            PhotoDecisionWriteError::Invalid => "Photo decision write request is not valid",
            PhotoDecisionWriteError::LimitExceeded { .. } =>
                "Photo decision write exceeds its limit",
            PhotoDecisionWriteError::Persistence => "Photo decision write could not be persisted",
            PhotoDecisionWriteError::Saturated => "SQLite persistence queue is saturated",
            PhotoDecisionWriteError::Closed => "SQLite persistence is closed",
        };
        text.to_owned()
    }
}

/// How a checked Album write tells a failure of the owner.
pub fn album_write_error_from_persistence(error: PersistenceError) -> (told: AlbumWriteError)
    ensures
        told == (match error {
            PersistenceError::Saturated => AlbumWriteError::Saturated,
            PersistenceError::Closed => AlbumWriteError::Closed,
            _ => AlbumWriteError::Persistence,
        }),
{
    match error {
        PersistenceError::Saturated => AlbumWriteError::Saturated,
        PersistenceError::Closed => AlbumWriteError::Closed,
        _ => AlbumWriteError::Persistence,
    }
}

/// How a checked Album write tells the failure of the mutation under it.
pub open spec fn album_write_error_of(error: MutationError) -> AlbumWriteError {
    match error {
        MutationError::Saturated => AlbumWriteError::Saturated,
        MutationError::Closed => AlbumWriteError::Closed,
        _ => AlbumWriteError::Persistence,
    }
}

/// How a checked Album write tells the failure of the mutation under it.
pub fn album_write_error_from_mutation(error: MutationError) -> (told: AlbumWriteError)
    ensures
        told == album_write_error_of(error),
{
    match error {
        MutationError::Saturated => AlbumWriteError::Saturated,
        MutationError::Closed => AlbumWriteError::Closed,
        _ => AlbumWriteError::Persistence,
    }
}

/// How a checked Photo decision tells a failure of the owner.
pub fn photo_decision_write_error_from_persistence(error: PersistenceError) -> (told:
    PhotoDecisionWriteError)
    ensures
        told == (match error {
            PersistenceError::Saturated => PhotoDecisionWriteError::Saturated,
            PersistenceError::Closed => PhotoDecisionWriteError::Closed,
            _ => PhotoDecisionWriteError::Persistence,
        }),
{
    match error {
        PersistenceError::Saturated => PhotoDecisionWriteError::Saturated,
        PersistenceError::Closed => PhotoDecisionWriteError::Closed,
        _ => PhotoDecisionWriteError::Persistence,
    }
}

/// How a checked Photo decision tells the failure of the mutation under it.
pub open spec fn photo_decision_write_error_of(error: MutationError) -> PhotoDecisionWriteError {
    match error {
        MutationError::Saturated => PhotoDecisionWriteError::Saturated,
        MutationError::Closed => PhotoDecisionWriteError::Closed,
        _ => PhotoDecisionWriteError::Persistence,
    }
}

/// How a checked Photo decision tells the failure of the mutation under it.
pub fn photo_decision_write_error_from_mutation(error: MutationError) -> (told:
    PhotoDecisionWriteError)
    ensures
        told == photo_decision_write_error_of(error),
{
    match error {
        MutationError::Saturated => PhotoDecisionWriteError::Saturated,
        MutationError::Closed => PhotoDecisionWriteError::Closed,
        _ => PhotoDecisionWriteError::Persistence,
    }
}

/// How a mutation tells a failure of the owner: saturation and closing keep
/// their meaning, everything else was not persisted.
pub fn mutation_error_from_persistence(error: PersistenceError) -> (told: MutationError)
    ensures
        told == (match error {
            PersistenceError::Saturated => MutationError::Saturated,
            PersistenceError::Closed => MutationError::Closed,
            _ => MutationError::Persistence,
        }),
{
    match error {
        PersistenceError::Saturated => MutationError::Saturated,
        PersistenceError::Closed => MutationError::Closed,
        _ => MutationError::Persistence,
    }
}

/// Only a full queue and a closed owner are told as such to whoever asked; any other
/// failure is told as a failure of the store.
pub proof fn law_refusals_are_told_as_such(
    stored: PersistenceError,
    refused: MutationError,
    album: AlbumWriteError,
    decision: PhotoDecisionWriteError,
    mutation: MutationError,
    album_refused: AlbumWriteError,
    decision_refused: PhotoDecisionWriteError,
)
    requires
        call_ensures(album_write_error_from_persistence, (stored,), album),
        call_ensures(photo_decision_write_error_from_persistence, (stored,), decision),
        call_ensures(mutation_error_from_persistence, (stored,), mutation),
        call_ensures(album_write_error_from_mutation, (refused,), album_refused),
        call_ensures(photo_decision_write_error_from_mutation, (refused,), decision_refused),
    ensures
        stored is Saturated <==> album is Saturated,
        stored is Closed <==> album is Closed,
        album is Saturated || album is Closed || album is Persistence,
        stored is Saturated <==> decision is Saturated,
        stored is Closed <==> decision is Closed,
        decision is Saturated || decision is Closed || decision is Persistence,
        stored is Saturated <==> mutation is Saturated,
        stored is Closed <==> mutation is Closed,
        mutation is Saturated || mutation is Closed || mutation is Persistence,
        refused is Saturated <==> album_refused is Saturated,
        refused is Closed <==> album_refused is Closed,
        album_refused is Saturated || album_refused is Closed || album_refused is Persistence,
        refused is Saturated <==> decision_refused is Saturated,
        refused is Closed <==> decision_refused is Closed,
        decision_refused is Saturated || decision_refused is Closed
            || decision_refused is Persistence,
{
}

} // verus!
