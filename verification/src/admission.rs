//! Which state directory and which database files are accepted, and how the
//! database is addressed. Paths are texts with one character per byte.
use crate::error::StateError;
use crate::numeral::{decimal, decimal_text};
use crate::path::{components, lies_under, reject_under_library, split_components};
use crate::text::texts;
use vstd::prelude::*;
use vstd::string::*;

verus! {

/// The number of bytes before the first slash.
pub open spec fn name_length(bytes: Seq<u8>) -> nat
    decreases bytes.len(),
{
    if bytes.len() == 0 || bytes[0] == 0x2f {
        0
    } else {
        1 + name_length(bytes.drop_first())
    }
}

/// Whether a name is one of the two that name no file: a dot, or two of them.
pub open spec fn dots(name: Seq<u8>) -> bool {
    name == seq![0x2eu8] || name == seq![0x2eu8, 0x2eu8]
}

/// Whether a path names one file in its own directory: a name that is neither a
/// dot nor two, followed by nothing but slashes and parts of one dot, and no NUL.
pub open spec fn names_one_file(bytes: Seq<u8>) -> bool {
    let end = name_length(bytes);
    &&& end > 0
    &&& !dots(bytes.take(end as int))
    &&& forall|i: int| 0 <= i < bytes.len() ==> #[trigger] bytes[i] != 0
    &&& forall|i: int|
        end <= i < bytes.len() ==> #[trigger] bytes[i] == 0x2f || (bytes[i] == 0x2e && bytes[i - 1]
            == 0x2f && (i + 1 == bytes.len() || bytes[i + 1] == 0x2f))
}

/// The name of a database file.
#[derive(Clone, Debug, PartialEq, Eq)]
pub struct DatabaseName {
    pub bytes: Vec<u8>,
}

proof fn lemma_name_length(bytes: Seq<u8>, n: int)
    requires
        0 <= n <= bytes.len(),
        forall|i: int| 0 <= i < n ==> #[trigger] bytes[i] != 0x2f,
        n == bytes.len() || bytes[n] == 0x2f,
    ensures
        name_length(bytes) == n,
    decreases n,
{
    if n > 0 {
        let rest = bytes.drop_first();
        assert forall|i: int| 0 <= i < n - 1 implies #[trigger] rest[i] != 0x2f by {
            assert(rest[i] == bytes[i + 1]);
        }
        lemma_name_length(rest, n - 1);
    }
}

impl DatabaseName {
    /// Accepts the name of one file in the state directory.
    pub fn parse(value: Vec<u8>) -> (name: Result<DatabaseName, StateError>)
        ensures
            name == (if names_one_file(value@) {
                Ok::<DatabaseName, StateError>(DatabaseName { bytes: value })
            } else {
                Err::<DatabaseName, StateError>(StateError::InvalidDatabaseName)
            }),
    {
        let mut end: usize = 0;
        while end < value.len() && value[end] != 0x2f
            invariant
                end <= value.len(),
                forall|i: int| 0 <= i < end ==> #[trigger] value@[i] != 0x2f,
            decreases value.len() - end,
        {
            end = end + 1;
        }
        proof {
            lemma_name_length(value@, end as int);
            if end == 1 {
                assert(value@.take(1) =~= seq![value@[0]]);
            }
            if end == 2 {
                assert(value@.take(2) =~= seq![value@[0], value@[1]]);
            }
            assert(seq![0x2eu8].len() == 1 && seq![0x2eu8, 0x2eu8].len() == 2);
            assert(seq![0x2eu8][0] == 0x2e);
            assert(seq![0x2eu8, 0x2eu8][0] == 0x2e && seq![0x2eu8, 0x2eu8][1] == 0x2e);
        }
        if end == 0 || (end == 1 && value[0] == 0x2e) || (end == 2 && value[0] == 0x2e && value[1]
            == 0x2e) {
            return Err(StateError::InvalidDatabaseName);
        }
        assert(!dots(value@.take(end as int))) by {
            if value@.take(end as int) == seq![0x2eu8] {
                assert(value@.take(end as int).len() == 1);
                assert(value@.take(end as int)[0] == value@[0]);
            }
            if value@.take(end as int) == seq![0x2eu8, 0x2eu8] {
                assert(value@.take(end as int).len() == 2);
                assert(value@.take(end as int)[0] == value@[0]);
                assert(value@.take(end as int)[1] == value@[1]);
            }
        }
        let mut i: usize = 0;
        while i < value.len()
            invariant
                i <= value.len(),
                0 < end <= value.len(),
                end == name_length(value@),
                forall|j: int| 0 <= j < i ==> #[trigger] value@[j] != 0,
                forall|j: int|
                    end <= j < i ==> #[trigger] value@[j] == 0x2f || (value@[j] == 0x2e
                        && value@[j - 1] == 0x2f && (j + 1 == value.len() || value@[j + 1]
                        == 0x2f)),
            decreases value.len() - i,
        {
            let byte: u8 = value[i];
            if byte == 0 {
                assert(value@[i as int] == 0);
                return Err(StateError::InvalidDatabaseName);
            }
            if i >= end {
                let names_nothing: bool = byte == 0x2f || (byte == 0x2e && value[i - 1] == 0x2f && (
                i + 1 == value.len() || value[i + 1] == 0x2f));
                if !names_nothing {
                    assert(!(value@[i as int] == 0x2f || (value@[i as int] == 0x2e && value@[i - 1]
                        == 0x2f && (i + 1 == value.len() || value@[i + 1] == 0x2f))));
                    return Err(StateError::InvalidDatabaseName);
                }
            }
            i = i + 1;
        }
        Ok(DatabaseName { bytes: value })
    }
}

/// What the system tells of an open file.
#[derive(Clone, Copy, Debug, PartialEq, Eq, Structural)]
pub struct FileFacts {
    pub device: u64,
    pub inode: u64,
    pub uid: u32,
    pub mode: u32,
    pub link_count: u64,
    pub size: i64,
}

/// What identifies a file, and what it was accepted with.
#[derive(Clone, Copy, Debug, PartialEq, Eq, Structural)]
pub struct StateFileIdentity {
    pub device: u64,
    pub inode: u64,
    pub uid: u32,
    pub mode: u32,
    pub link_count: u64,
}

/// Whether only its owner can write to a file or directory.
pub open spec fn owner_writes_alone(mode: u32) -> bool {
    mode & 0o022u32 == 0
}

/// Whether a file is a regular one.
pub open spec fn regular(mode: u32) -> bool {
    mode & 0o170000u32 == 0o100000u32
}

/// Whether a file is a directory.
pub open spec fn directory(mode: u32) -> bool {
    mode & 0o170000u32 == 0o040000u32
}

/// Whether a file is safely owned: a regular one of the given user, that nobody
/// else can write to and that has no other name.
pub open spec fn safely_owned(facts: FileFacts, uid: u32) -> bool {
    regular(facts.mode) && facts.uid == uid && owner_writes_alone(facts.mode) && facts.link_count
        == 1
}

/// The identity of a file that is safely owned.
pub fn safe_identity(facts: &FileFacts, uid: u32) -> (identity: Option<StateFileIdentity>)
    ensures
        identity == (if safely_owned(*facts, uid) {
            Some(
                StateFileIdentity {
                    device: facts.device,
                    inode: facts.inode,
                    uid: facts.uid,
                    mode: facts.mode,
                    link_count: facts.link_count,
                },
            )
        } else {
            None
        }),
{
    if facts.mode & 0o170000u32 == 0o100000u32 && facts.uid == uid && facts.mode & 0o022u32 == 0
        && facts.link_count == 1 {
        Some(
            StateFileIdentity {
                device: facts.device,
                inode: facts.inode,
                uid: facts.uid,
                mode: facts.mode,
                link_count: facts.link_count,
            },
        )
    } else {
        None
    }
}

/// Accepts a state directory: a directory of the given user that nobody else can
/// write to. `facts` are none where the system did not tell them.
pub fn admit_directory(facts: &Option<FileFacts>, uid: u32) -> (result: Result<(), StateError>)
    ensures
        result == (if *facts is Some && directory((*facts)->0.mode) && (*facts)->0.uid == uid
            && owner_writes_alone((*facts)->0.mode) {
            Ok::<(), StateError>(())
        } else {
            Err::<(), StateError>(StateError::UnsafeStateDirectory)
        }),
{
    match facts {
        Some(facts) => if facts.mode & 0o170000u32 == 0o040000u32 && facts.uid == uid && facts.mode
            & 0o022u32 == 0 {
            Ok(())
        } else {
            Err(StateError::UnsafeStateDirectory)
        },
        None => Err(StateError::UnsafeStateDirectory),
    }
}

/// Whether a part goes up.
pub open spec fn goes_up(list: Seq<Seq<char>>) -> bool {
    exists|i: int| 0 <= i < list.len() && #[trigger] list[i] == ".."@
}

/// The parts of the path of a state directory, from the root down, that lies
/// outside the library: the path is absolute, has at least one part, and none that
/// goes up.
pub fn state_path_parts(library: &String, path: &String) -> (list: Result<Vec<String>, StateError>)
    ensures
        ({
            let names = components(path@);
            if path@.len() == 0 || path@[0] != '/' {
                list == Err::<Vec<String>, StateError>(StateError::InvalidStatePath)
            } else if lies_under(library@, path@) {
                list == Err::<Vec<String>, StateError>(StateError::UnderLibraryRoot)
            } else if names.len() == 0 || goes_up(names) {
                list == Err::<Vec<String>, StateError>(StateError::InvalidStatePath)
            } else {
                list is Ok && texts(list->Ok_0@) == names
            }
        }),
{
    if path.as_str().unicode_len() == 0 || path.as_str().get_char(0) != '/' {
        return Err(StateError::InvalidStatePath);
    }
    match reject_under_library(library, path) {
        Ok(_) => {},
        Err(error) => {
            return Err(error);
        },
    }
    let list: Vec<String> = split_components(path);
    assert(texts(list@).len() == list.len());
    if list.len() == 0 {
        return Err(StateError::InvalidStatePath);
    }
    let mut i: usize = 0;
    while i < list.len()
        invariant
            i <= list.len(),
            path@.len() > 0 && path@[0] == '/' && !lies_under(library@, path@),
            texts(list@) == components(path@),
            forall|j: int| 0 <= j < i ==> #[trigger] texts(list@)[j] != ".."@,
        decreases list.len() - i,
    {
        if crate::text::is_text(&list[i], "..") {
            assert(components(path@)[i as int] == ".."@);
            return Err(StateError::InvalidStatePath);
        }
        i = i + 1;
    }
    Ok(list)
}

/// What became of opening a part of the path of a state directory below the one
/// that is open. The paths are those that the system tells of the directories, and
/// none where it does not.
#[derive(Clone, Debug, PartialEq, Eq)]
pub enum WalkFinding {
    /// The part is open; its path.
    Opened(Option<String>),
    /// There is no such part; the path of the one that is open.
    Missing(Option<String>),
    /// The part cannot be opened.
    Refused,
}

/// What to do next on the way down to a state directory.
#[derive(Clone, Copy, Debug, PartialEq, Eq, Structural)]
pub enum WalkStep {
    /// Go on below the part that was opened.
    Descend,
    /// Create the part, then open it.
    Create,
}

/// What is done next on the way down to a state directory, or why it ends. Nothing
/// is created in the library, and no way leads through it.
pub open spec fn walked(library: Seq<char>, finding: WalkFinding) -> Result<WalkStep, StateError> {
    match finding {
        WalkFinding::Opened(Some(path)) => if lies_under(library, path@) {
            Err(StateError::UnderLibraryRoot)
        } else {
            Ok(WalkStep::Descend)
        },
        WalkFinding::Missing(Some(path)) => if lies_under(library, path@) {
            Err(StateError::UnderLibraryRoot)
        } else {
            Ok(WalkStep::Create)
        },
        _ => Err(StateError::UnsafeStateDirectory),
    }
}

/// Decides what is done next on the way down to a state directory.
pub fn walk_state_path(library: &String, finding: &WalkFinding) -> (step: Result<
    WalkStep,
    StateError,
>)
    ensures
        step == walked(library@, *finding),
{
    match finding {
        WalkFinding::Opened(Some(path)) => match reject_under_library(library, path) {
            Ok(_) => Ok(WalkStep::Descend),
            Err(error) => Err(error),
        },
        WalkFinding::Missing(Some(path)) => match reject_under_library(library, path) {
            Ok(_) => Ok(WalkStep::Create),
            Err(error) => Err(error),
        },
        _ => Err(StateError::UnsafeStateDirectory),
    }
}

/// What is said of a part of a state directory that could not be created.
pub fn creation_failure() -> (error: StateError)
    ensures
        error == StateError::Io("SQLite state directory could not be created"),
{
    StateError::Io("SQLite state directory could not be created")
}

/// No part of a state directory is created in the library: one is created only
/// below a directory that is neither the library's root nor lies under it.
pub proof fn law_nothing_is_created_in_the_library(library: Seq<char>, finding: WalkFinding)
    requires
        walked(library, finding) == Ok::<WalkStep, StateError>(WalkStep::Create),
    ensures
        finding matches WalkFinding::Missing(Some(parent)) && !lies_under(library, parent@)
            && parent@ != library,
{
    crate::path::law_paths_under_the_library_are_refused(library, Seq::empty());
}

/// What became of opening a file.
#[derive(Clone, Copy, Debug, PartialEq, Eq, Structural)]
pub enum FileFinding {
    /// There is no such file.
    Missing,
    /// The file is open; its facts are none where the system did not tell them.
    Found(Option<FileFacts>),
    /// The file could not be opened.
    Refused,
}

/// Whether a database file is there. One that cannot be opened is not safe.
pub fn database_exists(finding: &FileFinding) -> (exists_: Result<bool, StateError>)
    ensures
        exists_ == (match *finding {
            FileFinding::Missing => Ok::<bool, StateError>(false),
            FileFinding::Found(_) => Ok::<bool, StateError>(true),
            FileFinding::Refused => Err::<bool, StateError>(StateError::UnsafeDatabase),
        }),
{
    match finding {
        FileFinding::Missing => Ok(false),
        FileFinding::Found(_) => Ok(true),
        FileFinding::Refused => Err(StateError::UnsafeDatabase),
    }
}

/// Accepts a database file that is safely owned.
pub fn prepare_database(finding: &FileFinding, uid: u32) -> (identity: Result<
    StateFileIdentity,
    StateError,
>)
    ensures
        match *finding {
            FileFinding::Found(Some(facts)) if safely_owned(facts, uid) => identity is Ok
                && identity->Ok_0 == (StateFileIdentity {
                device: facts.device,
                inode: facts.inode,
                uid: facts.uid,
                mode: facts.mode,
                link_count: facts.link_count,
            }),
            _ => identity == Err::<StateFileIdentity, StateError>(StateError::UnsafeDatabase),
        },
{
    match finding {
        FileFinding::Found(Some(facts)) => match safe_identity(facts, uid) {
            Some(identity) => Ok(identity),
            None => Err(StateError::UnsafeDatabase),
        },
        _ => Err(StateError::UnsafeDatabase),
    }
}

/// Whether a file that was found is still the one that was accepted.
pub open spec fn unchanged(facts: Option<FileFacts>, uid: u32, expected: StateFileIdentity) -> bool {
    facts is Some && safely_owned(facts->0, uid) && expected == (StateFileIdentity {
        device: facts->0.device,
        inode: facts->0.inode,
        uid: facts->0.uid,
        mode: facts->0.mode,
        link_count: facts->0.link_count,
    })
}

fn is_unchanged(facts: &Option<FileFacts>, uid: u32, expected: StateFileIdentity) -> (answer: bool)
    ensures
        answer == unchanged(*facts, uid, expected),
{
    match facts {
        Some(facts) => match safe_identity(facts, uid) {
            Some(identity) => identity == expected,
            None => false,
        },
        None => false,
    }
}

/// Accepts a database file that is still the one that was accepted before.
pub fn verify_database(finding: &FileFinding, uid: u32, expected: StateFileIdentity) -> (result:
    Result<(), StateError>)
    ensures
        result == (match *finding {
            FileFinding::Found(facts) => if unchanged(facts, uid, expected) {
                Ok::<(), StateError>(())
            } else {
                Err::<(), StateError>(StateError::ChangedDatabase)
            },
            _ => Err::<(), StateError>(StateError::UnsafeDatabase),
        }),
{
    match finding {
        FileFinding::Found(facts) => if is_unchanged(facts, uid, expected) {
            Ok(())
        } else {
            Err(StateError::ChangedDatabase)
        },
        _ => Err(StateError::UnsafeDatabase),
    }
}

/// Accepts a database file for removal that was created for nothing: it is still
/// the one that was created, and empty.
pub fn remove_created_empty_database(
    finding: &FileFinding,
    uid: u32,
    expected: StateFileIdentity,
) -> (result: Result<(), StateError>)
    ensures
        result == (match *finding {
            FileFinding::Found(facts) => if unchanged(facts, uid, expected) && facts->0.size == 0 {
                Ok::<(), StateError>(())
            } else {
                Err::<(), StateError>(StateError::ChangedDatabase)
            },
            _ => Err::<(), StateError>(StateError::UnsafeDatabase),
        }),
{
    match finding {
        FileFinding::Found(facts) => {
            let empty: bool = match facts {
                Some(facts) => facts.size == 0,
                None => false,
            };
            if is_unchanged(facts, uid, expected) && empty {
                Ok(())
            } else {
                Err(StateError::ChangedDatabase)
            }
        },
        _ => Err(StateError::UnsafeDatabase),
    }
}

/// Whether a finding of a sidecar is safe: there is none, or one that is safely
/// owned.
pub open spec fn sidecar_safe(finding: FileFinding, uid: u32) -> bool {
    match finding {
        FileFinding::Missing => true,
        FileFinding::Found(facts) => facts is Some && safely_owned(facts->0, uid),
        FileFinding::Refused => false,
    }
}

/// The names of the sidecars that a database may leave behind: its journal, its
/// write-ahead log and the shared memory of that.
pub fn sidecar_suffixes() -> (suffixes: Vec<String>)
    ensures
        texts(suffixes@) == seq!["-journal"@, "-wal"@, "-shm"@],
{
    let suffixes: Vec<String> = vec!["-journal".to_owned(), "-wal".to_owned(), "-shm".to_owned()];
    assert(texts(suffixes@) =~= seq!["-journal"@, "-wal"@, "-shm"@]);
    suffixes
}

/// Whether there is a sidecar of a database. One that is not safely owned is
/// refused.
pub fn inspect_sidecars(findings: &Vec<FileFinding>, uid: u32) -> (present: Result<
    bool,
    StateError,
>)
    ensures
        if forall|i: int| 0 <= i < findings.len() ==> sidecar_safe(#[trigger] findings@[i], uid) {
            present is Ok && present->Ok_0 == exists|i: int|
                0 <= i < findings.len() && (#[trigger] findings@[i]) != FileFinding::Missing
        } else {
            present == Err::<bool, StateError>(StateError::UnsafeSidecar)
        },
{
    let mut present: bool = false;
    let mut i: usize = 0;
    while i < findings.len()
        invariant
            i <= findings.len(),
            forall|j: int| 0 <= j < i ==> sidecar_safe(#[trigger] findings@[j], uid),
            present == exists|j: int| 0 <= j < i && (#[trigger] findings@[j])
                != FileFinding::Missing,
        decreases findings.len() - i,
    {
        match &findings[i] {
            FileFinding::Missing => {},
            FileFinding::Found(Some(facts)) => {
                if safe_identity(facts, uid).is_none() {
                    assert(!sidecar_safe(findings@[i as int], uid));
                    return Err(StateError::UnsafeSidecar);
                }
                assert(findings@[i as int] != FileFinding::Missing);
                present = true;
            },
            _ => {
                assert(!sidecar_safe(findings@[i as int], uid));
                return Err(StateError::UnsafeSidecar);
            },
        }
        i = i + 1;
    }
    Ok(present)
}

/// Accepts a database without any sidecar.
pub fn admit_sidecars(findings: &Vec<FileFinding>, uid: u32) -> (result: Result<(), StateError>)
    ensures
        if forall|i: int| 0 <= i < findings.len() ==> sidecar_safe(#[trigger] findings@[i], uid) {
            if exists|i: int|
                0 <= i < findings.len() && (#[trigger] findings@[i]) != FileFinding::Missing {
                result == Err::<(), StateError>(StateError::SidecarPresent)
            } else {
                result is Ok
            }
        } else {
            result == Err::<(), StateError>(StateError::UnsafeSidecar)
        },
{
    match inspect_sidecars(findings, uid) {
        Ok(present) => if present {
            Err(StateError::SidecarPresent)
        } else {
            Ok(())
        },
        Err(error) => Err(error),
    }
}

/// Whether a database may be opened for writing and would be created by that. A
/// sidecar waits for its recovery before anything is created.
pub open spec fn creating(sidecars: Seq<FileFinding>, existing: FileFinding, uid: u32) -> Result<
    bool,
    StateError,
> {
    if !(forall|i: int| 0 <= i < sidecars.len() ==> sidecar_safe(#[trigger] sidecars[i], uid)) {
        Err(StateError::UnsafeSidecar)
    } else if exists|i: int|
        0 <= i < sidecars.len() && (#[trigger] sidecars[i]) != FileFinding::Missing {
        Err(StateError::SidecarPresent)
    } else if existing == FileFinding::Refused {
        Err(StateError::UnsafeDatabase)
    } else {
        Ok(existing == FileFinding::Missing)
    }
}

/// Decides whether a database may be opened for writing, and tells whether that
/// creates it.
pub fn admit_creation(sidecars: &Vec<FileFinding>, existing: &FileFinding, uid: u32) -> (created:
    Result<bool, StateError>)
    ensures
        created == creating(sidecars@, *existing, uid),
{
    match admit_sidecars(sidecars, uid) {
        Ok(_) => match database_exists(existing) {
            Ok(existed) => Ok(!existed),
            Err(error) => Err(error),
        },
        Err(error) => Err(error),
    }
}

/// No database is created or opened for writing while one of its sidecars is there.
pub proof fn law_sidecars_are_recovered_first(
    sidecars: Seq<FileFinding>,
    existing: FileFinding,
    uid: u32,
    i: int,
)
    requires
        0 <= i < sidecars.len(),
        sidecars[i] != FileFinding::Missing,
    ensures
        creating(sidecars, existing, uid) is Err,
{
}

/// The bytes of a text, one for each character.
pub open spec fn low_bytes(text: Seq<char>) -> Seq<u8> {
    Seq::new(text.len(), |i: int| text[i] as u8)
}

/// The path of a database under the descriptor of its directory.
pub open spec fn descriptor_path(descriptor: nat, name: Seq<u8>) -> Seq<u8> {
    low_bytes("/proc/self/fd/"@ + decimal(descriptor) + "/"@) + name
}

proof fn lemma_descriptor_ascii(descriptor: nat)
    ensures
        forall|i: int|
            0 <= i < ("/proc/self/fd/"@ + decimal(descriptor) + "/"@).len() ==> (#[trigger] (
            "/proc/self/fd/"@ + decimal(descriptor) + "/"@)[i] as u32) < 128,
{
    reveal_strlit("/proc/self/fd/");
    reveal_strlit("/");
    crate::numeral::law_decimal_reads_back(descriptor);
    let head = "/proc/self/fd/"@;
    let text = head + decimal(descriptor) + "/"@;
    assert forall|i: int| 0 <= i < text.len() implies (#[trigger] text[i] as u32) < 128 by {
        if i < head.len() {
            assert(text[i] == head[i]);
        } else if i < head.len() + decimal(descriptor).len() {
            assert(text[i] == decimal(descriptor)[i - head.len()]);
            assert(crate::numeral::is_digit(decimal(descriptor)[i - head.len()]));
        }
    }
}

/// The path of a database under the descriptor of its directory, so that the
/// directory stays the one that was accepted whatever its path becomes.
pub fn sqlite_path(descriptor: u32, name: &DatabaseName) -> (path: Vec<u8>)
    ensures
        path@ == descriptor_path(descriptor as nat, name.bytes@),
{
    let mut text: String = "/proc/self/fd/".to_owned();
    text.append(decimal_text(descriptor as u64).as_str());
    text.append("/");
    let ghost head = "/proc/self/fd/"@ + decimal(descriptor as nat) + "/"@;
    let len: usize = text.as_str().unicode_len();
    let mut path: Vec<u8> = Vec::new();
    let mut i: usize = 0;
    assert(low_bytes(head.take(0)) =~= Seq::<u8>::empty());
    while i < len
        invariant
            i <= len,
            len == text@.len(),
            text@ == head,
            head == "/proc/self/fd/"@ + decimal(descriptor as nat) + "/"@,
            path@ == low_bytes(head.take(i as int)),
        decreases len - i,
    {
        let c: char = text.as_str().get_char(i);
        proof {
            lemma_descriptor_ascii(descriptor as nat);
            assert(head[i as int] == c);
            assert(low_bytes(head.take(i + 1)) =~= low_bytes(head.take(i as int)).push(c as u8));
        }
        path.push(c as u8);
        i = i + 1;
    }
    assert(head.take(len as int) =~= head);
    let mut k: usize = 0;
    assert(path@ + name.bytes@.take(0) =~= path@);
    while k < name.bytes.len()
        invariant
            k <= name.bytes.len(),
            path@ == low_bytes(head) + name.bytes@.take(k as int),
        decreases name.bytes.len() - k,
    {
        assert(name.bytes@.take(k + 1) =~= name.bytes@.take(k as int).push(name.bytes@[k as int]));
        path.push(name.bytes[k]);
        assert(path@ =~= low_bytes(head) + name.bytes@.take(k + 1));
        k = k + 1;
    }
    assert(name.bytes@.take(name.bytes@.len() as int) =~= name.bytes@);
    path
}

/// Whether a byte stands for itself in a URI.
pub open spec fn plain_byte(byte: u8) -> bool {
    byte == 0x2f || (0x30 <= byte <= 0x39) || (0x41 <= byte <= 0x5a) || (0x61 <= byte <= 0x7a)
        || byte == 0x2d || byte == 0x5f || byte == 0x2e || byte == 0x7e
}

/// The upper-case character that writes a hexadecimal digit.
pub open spec fn upper_hex(d: nat) -> char {
    if d < 10 {
        (('0' as nat) + d) as char
    } else {
        (('A' as nat) + (d - 10)) as char
    }
}

/// How a byte stands in a URI.
pub open spec fn uri_byte(byte: u8) -> Seq<char> {
    if plain_byte(byte) {
        seq![byte as char]
    } else {
        seq!['%', upper_hex((byte / 16) as nat), upper_hex((byte % 16) as nat)]
    }
}

/// How bytes stand in a URI.
pub open spec fn uri_bytes(bytes: Seq<u8>) -> Seq<char>
    decreases bytes.len(),
{
    if bytes.len() == 0 {
        Seq::empty()
    } else {
        uri_bytes(bytes.drop_last()) + uri_byte(bytes.last())
    }
}

/// The URI that opens a database read-only and as it is.
pub open spec fn immutable_uri(path: Seq<u8>) -> Seq<char> {
    "file:"@ + uri_bytes(path) + "?mode=ro&immutable=1"@
}

fn upper_digit(d: u8) -> (c: char)
    requires
        d < 16,
    ensures
        c == upper_hex(d as nat),
{
    match d {
        0 => '0',
        1 => '1',
        2 => '2',
        3 => '3',
        4 => '4',
        5 => '5',
        6 => '6',
        7 => '7',
        8 => '8',
        9 => '9',
        10 => 'A',
        11 => 'B',
        12 => 'C',
        13 => 'D',
        14 => 'E',
        _ => 'F',
    }
}

/// The URI that opens a database read-only and as it is.
pub fn sqlite_immutable_uri(path: &Vec<u8>) -> (uri: String)
    ensures
        uri@ == immutable_uri(path@),
{
    let mut uri: String = "file:".to_owned();
    let mut i: usize = 0;
    assert(path@.take(0) =~= Seq::<u8>::empty());
    assert("file:"@ + uri_bytes(path@.take(0)) =~= "file:"@);
    while i < path.len()
        invariant
            i <= path.len(),
            uri@ == "file:"@ + uri_bytes(path@.take(i as int)),
        decreases path.len() - i,
    {
        let byte: u8 = path[i];
        let ghost before = uri@;
        proof {
            assert(path@.take(i + 1).drop_last() =~= path@.take(i as int));
            assert(path@.take(i + 1).last() == byte);
        }
        if byte == 0x2f || (0x30 <= byte && byte <= 0x39) || (0x41 <= byte && byte <= 0x5a) || (0x61
            <= byte && byte <= 0x7a) || byte == 0x2d || byte == 0x5f || byte == 0x2e || byte
            == 0x7e {
            uri.push(byte as char);
        } else {
            uri.push('%');
            uri.push(upper_digit(byte / 16));
            uri.push(upper_digit(byte % 16));
        }
        assert(uri@ =~= before + uri_byte(byte));
        assert(before + uri_byte(byte) =~= "file:"@ + uri_bytes(path@.take(i + 1)));
        i = i + 1;
    }
    assert(path@.take(path@.len() as int) =~= path@);
    uri.append("?mode=ro&immutable=1");
    uri
}

proof fn lemma_no_late_percent(bytes: Seq<u8>)
    ensures
        uri_bytes(bytes).len() >= bytes.len(),
        uri_bytes(bytes).len() >= 1 ==> uri_bytes(bytes).last() != '%',
        uri_bytes(bytes).len() >= 2 ==> uri_bytes(bytes)[uri_bytes(bytes).len() - 2] != '%',
    decreases bytes.len(),
{
    if bytes.len() > 0 {
        let front = bytes.drop_last();
        lemma_no_late_percent(front);
        let before = uri_bytes(front);
        let text = uri_bytes(bytes);
        let block = uri_byte(bytes.last());
        assert(text == before + block);
        if plain_byte(bytes.last()) {
            assert(block.len() == 1);
            assert(text.last() == block[0]);
            if text.len() >= 2 {
                assert(text[text.len() - 2] == before[before.len() - 1]);
            }
        } else {
            assert(block.len() == 3);
            assert(text[text.len() - 1] == block[2]);
            assert(text[text.len() - 2] == block[1]);
        }
    }
}

/// A URI names one path: two paths with the same URI are the same path.
pub proof fn law_uris_are_told_apart(a: Seq<u8>, b: Seq<u8>)
    requires
        uri_bytes(a) == uri_bytes(b),
    ensures
        a == b,
    decreases a.len(),
{
    lemma_no_late_percent(a);
    lemma_no_late_percent(b);
    if a.len() == 0 || b.len() == 0 {
        if a.len() > 0 {
            assert(uri_bytes(b).len() == 0);
        }
        if b.len() > 0 {
            assert(uri_bytes(a).len() == 0);
        }
        assert(a =~= b);
    } else {
        let x = a.last();
        let y = b.last();
        let front_a = uri_bytes(a.drop_last());
        let front_b = uri_bytes(b.drop_last());
        let text = uri_bytes(a);
        lemma_no_late_percent(a.drop_last());
        lemma_no_late_percent(b.drop_last());
        let block_a = uri_byte(x);
        let block_b = uri_byte(y);
        assert(text == front_a + block_a);
        assert(text == front_b + block_b);
        if plain_byte(x) && plain_byte(y) {
            assert(text.last() == block_a[0]);
            assert(text.last() == block_b[0]);
            assert(front_a =~= text.take(text.len() - 1));
            assert(front_b =~= text.take(text.len() - 1));
        } else if !plain_byte(x) && !plain_byte(y) {
            assert(text[text.len() - 1] == block_a[2] && text[text.len() - 1] == block_b[2]);
            assert(text[text.len() - 2] == block_a[1] && text[text.len() - 2] == block_b[1]);
            assert(front_a =~= text.take(text.len() - 3));
            assert(front_b =~= text.take(text.len() - 3));
            assert(x == y);
        } else if plain_byte(x) {
            assert(text[text.len() - 3] == '%');
            assert(text[text.len() - 3] == front_a[front_a.len() - 2]);
        } else {
            assert(text[text.len() - 3] == '%');
            assert(text[text.len() - 3] == front_b[front_b.len() - 2]);
        }
        law_uris_are_told_apart(a.drop_last(), b.drop_last());
        assert(a =~= a.drop_last().push(x));
        assert(b =~= b.drop_last().push(y));
    }
}

/// A file is one of the owner's own where it is a regular file of that user, with one
/// name, that neither the group nor anybody else may write.
pub proof fn law_own_files_are_written_by_the_owner(
    facts: FileFacts,
    uid: u32,
    identity: Option<StateFileIdentity>,
)
    requires
        call_ensures(safe_identity, (&facts, uid), identity),
    ensures
        identity is Some <==> {
            &&& facts.mode & 0o170000u32 == 0o100000u32
            &&& facts.mode & 0o020u32 == 0
            &&& facts.mode & 0o002u32 == 0
            &&& facts.uid == uid
            &&& facts.link_count == 1
        },
        identity is Some ==> {
            &&& identity->0.device == facts.device
            &&& identity->0.inode == facts.inode
            &&& identity->0.uid == facts.uid
            &&& identity->0.mode == facts.mode
            &&& identity->0.link_count == facts.link_count
        },
{
    lemma_nobody_else_writes(facts.mode);
}

proof fn lemma_nobody_else_writes(mode: u32)
    ensures
        mode & 0o022u32 == 0 <==> mode & 0o020u32 == 0 && mode & 0o002u32 == 0,
{
    assert(mode & 0o022u32 == 0 <==> mode & 0o020u32 == 0 && mode & 0o002u32 == 0) by (bit_vector);
}

/// A state directory is taken only where it is a directory of the user that neither the
/// group nor anybody else may write.
pub proof fn law_state_directories_are_the_owners(
    facts: Option<FileFacts>,
    uid: u32,
    result: Result<(), StateError>,
)
    requires
        call_ensures(admit_directory, (&facts, uid), result),
    ensures
        result is Ok <==> facts is Some && facts->0.mode & 0o170000u32 == 0o040000u32
            && facts->0.mode & 0o020u32 == 0 && facts->0.mode & 0o002u32 == 0 && facts->0.uid
            == uid,
        result is Err ==> result->Err_0 == StateError::UnsafeStateDirectory,
{
    if facts is Some {
        lemma_nobody_else_writes(facts->0.mode);
    }
}

/// A database that was prepared is still the same where it is found with every fact of
/// its identity; one that changed is told as changed, one that is not found as unsafe. A
/// database that was just created is removed only where it is that file and empty.
pub proof fn law_databases_are_verified_by_identity(
    finding: FileFinding,
    uid: u32,
    expected: StateFileIdentity,
    verified: Result<(), StateError>,
    removed: Result<(), StateError>,
)
    requires
        call_ensures(verify_database, (&finding, uid, expected), verified),
        call_ensures(remove_created_empty_database, (&finding, uid, expected), removed),
    ensures
        verified is Ok ==> {
            &&& finding matches FileFinding::Found(Some(facts))
            &&& facts.device == expected.device
            &&& facts.inode == expected.inode
            &&& facts.uid == expected.uid
            &&& facts.mode == expected.mode
            &&& facts.link_count == expected.link_count
            &&& facts.uid == uid
            &&& facts.link_count == 1
            &&& facts.mode & 0o170000u32 == 0o100000u32
            &&& facts.mode & 0o022u32 == 0
        },
        removed is Ok ==> verified is Ok && (finding matches FileFinding::Found(Some(facts))
            && facts.size == 0),
        verified is Ok && (finding matches FileFinding::Found(Some(facts)) && facts.size == 0)
            ==> removed is Ok,
        finding matches FileFinding::Found(Some(facts)) ==> (facts.device == expected.device
            && facts.inode == expected.inode && facts.uid == expected.uid && facts.mode
            == expected.mode && facts.link_count == expected.link_count && facts.uid == uid
            && facts.link_count == 1 && facts.mode & 0o170000u32 == 0o100000u32 && facts.mode
            & 0o022u32 == 0 ==> verified is Ok),
        finding is Found && verified is Err ==> verified->Err_0 == StateError::ChangedDatabase,
        !(finding is Found) ==> verified == Err::<(), StateError>(StateError::UnsafeDatabase)
            && removed == Err::<(), StateError>(StateError::UnsafeDatabase),
{
}

/// A database is prepared only where it is found as a file of the owner's own, and its
/// identity is that of the file.
pub proof fn law_databases_are_prepared_by_identity(
    finding: FileFinding,
    uid: u32,
    identity: Result<StateFileIdentity, StateError>,
)
    requires
        call_ensures(prepare_database, (&finding, uid), identity),
    ensures
        identity is Ok ==> {
            &&& finding matches FileFinding::Found(Some(facts))
            &&& facts.mode & 0o170000u32 == 0o100000u32
            &&& facts.mode & 0o022u32 == 0
            &&& facts.uid == uid
            &&& facts.link_count == 1
            &&& identity->Ok_0.device == facts.device
            &&& identity->Ok_0.inode == facts.inode
            &&& identity->Ok_0.uid == facts.uid
            &&& identity->Ok_0.mode == facts.mode
            &&& identity->Ok_0.link_count == facts.link_count
        },
        identity is Err ==> identity->Err_0 == StateError::UnsafeDatabase,
        !(finding is Found) || finding->Found_0 is None ==> identity is Err,
        finding matches FileFinding::Found(Some(facts)) ==> (facts.mode & 0o170000u32
            == 0o100000u32 && facts.mode & 0o022u32 == 0 && facts.uid == uid && facts.link_count
            == 1 ==> identity is Ok),
{
}

/// Whether a database is there is told by whether it was found; one that cannot be opened
/// is unsafe.
pub proof fn law_databases_are_found(finding: FileFinding, found: Result<bool, StateError>)
    requires
        call_ensures(database_exists, (&finding,), found),
    ensures
        finding is Missing ==> found == Ok::<bool, StateError>(false),
        finding is Found ==> found == Ok::<bool, StateError>(true),
        finding is Refused ==> found == Err::<bool, StateError>(StateError::UnsafeDatabase),
{
}

/// Files beside a database are told where one is there; each must be a file of the
/// owner's own. A database is created only where none is beside it and none is there.
pub proof fn law_files_beside_a_database_are_told(
    findings: Vec<FileFinding>,
    existing: FileFinding,
    uid: u32,
    present: Result<bool, StateError>,
    admitted: Result<(), StateError>,
    created: Result<bool, StateError>,
    i: int,
)
    requires
        call_ensures(inspect_sidecars, (&findings, uid), present),
        call_ensures(admit_sidecars, (&findings, uid), admitted),
        call_ensures(admit_creation, (&findings, &existing, uid), created),
        0 <= i < findings.len(),
    ensures
        findings@[i] is Refused ==> present is Err && admitted is Err && created is Err,
        findings@[i] matches FileFinding::Found(Some(facts)) ==> (facts.uid != uid
            || facts.link_count != 1 || facts.mode & 0o022u32 != 0 ==> present == Err::<
            bool,
            StateError,
        >(StateError::UnsafeSidecar)),
        !(findings@[i] is Missing) && present is Ok ==> present->Ok_0 && admitted == Err::<
            (),
            StateError,
        >(StateError::SidecarPresent),
        !(findings@[i] is Missing) ==> admitted is Err && created is Err,
        (forall|k: int| 0 <= k < findings.len() ==> #[trigger] findings@[k] is Missing) ==> {
            &&& present == Ok::<bool, StateError>(false)
            &&& admitted is Ok
            &&& existing is Missing ==> created == Ok::<bool, StateError>(true)
            &&& existing is Found ==> created == Ok::<bool, StateError>(false)
            &&& existing is Refused ==> created == Err::<bool, StateError>(
                StateError::UnsafeDatabase,
            )
        },
{
    let file = findings@[i];
    if forall|k: int| 0 <= k < findings.len() ==> sidecar_safe(#[trigger] findings@[k], uid) {
        assert(sidecar_safe(findings@[i], uid));
    }
    if forall|k: int| 0 <= k < findings.len() ==> #[trigger] findings@[k] is Missing {
        assert forall|k: int| 0 <= k < findings.len() implies sidecar_safe(
            #[trigger] findings@[k],
            uid,
        ) by {}
    }
}

/// The path of a state directory is taken apart only where it is absolute, does not lie
/// in the Library, names something, and never goes up.
pub proof fn law_state_paths_never_go_up(
    library: String,
    path: String,
    list: Result<Vec<String>, StateError>,
    i: int,
)
    requires
        call_ensures(state_path_parts, (&library, &path), list),
    ensures
        list is Ok ==> {
            &&& path@.len() > 0
            &&& path@[0] == '/'
            &&& !lies_under(library@, path@)
            &&& list->Ok_0.len() > 0
            &&& 0 <= i < list->Ok_0.len() ==> list->Ok_0@[i]@ != ".."@
        },
        path@.len() == 0 || path@[0] != '/' ==> list == Err::<Vec<String>, StateError>(
            StateError::InvalidStatePath,
        ),
        path@.len() > 0 && path@[0] == '/' && lies_under(library@, path@) ==> list == Err::<
            Vec<String>,
            StateError,
        >(StateError::UnderLibraryRoot),
{
    if list is Ok {
        assert(texts(list->Ok_0@).len() == list->Ok_0.len());
        if 0 <= i < list->Ok_0.len() {
            assert(texts(list->Ok_0@)[i] == list->Ok_0@[i]@);
        }
    }
}

/// A name without a slash names one file where it holds a byte, none of them zero, and
/// is neither a dot nor two.
pub proof fn law_plain_names_name_one_file(bytes: Seq<u8>)
    requires
        forall|i: int| 0 <= i < bytes.len() ==> #[trigger] bytes[i] != 0x2f,
    ensures
        names_one_file(bytes) <==> bytes.len() > 0 && bytes != seq![0x2eu8] && bytes != seq![
            0x2eu8,
            0x2eu8,
        ] && forall|i: int| 0 <= i < bytes.len() ==> #[trigger] bytes[i] != 0,
{
    lemma_name_length(bytes, bytes.len() as int);
    assert(bytes.take(bytes.len() as int) =~= bytes);
}

/// A database is opened by the descriptor of its directory and its own name; a read-only
/// one by a URI that says so. Three files may stand beside it.
pub proof fn law_databases_are_opened_by_descriptor(
    descriptor: u32,
    name: DatabaseName,
    path: Vec<u8>,
    uri: String,
    suffixes: Vec<String>,
)
    requires
        call_ensures(sqlite_path, (descriptor, &name), path),
        call_ensures(sqlite_immutable_uri, (&path,), uri),
        call_ensures(sidecar_suffixes, (), suffixes),
    ensures
        path@ == low_bytes("/proc/self/fd/"@) + low_bytes(decimal(descriptor as nat)) + seq![47u8]
            + name.bytes@,
        uri@.take(5) == "file:"@,
        uri@.skip(uri@.len() - 20) == "?mode=ro&immutable=1"@,
        suffixes.len() == 3,
        suffixes@[0]@ == "-journal"@,
        suffixes@[1]@ == "-wal"@,
        suffixes@[2]@ == "-shm"@,
{
    reveal_strlit("/proc/self/fd/");
    reveal_strlit("/");
    reveal_strlit("file:");
    reveal_strlit("?mode=ro&immutable=1");
    let number = decimal(descriptor as nat);
    assert(low_bytes("/proc/self/fd/"@ + number + "/"@) =~= low_bytes("/proc/self/fd/"@)
        + low_bytes(number) + seq![47u8]);
    assert(uri@.take(5) =~= "file:"@);
    assert(uri@.skip(uri@.len() - 20) =~= "?mode=ro&immutable=1"@);
    assert(texts(suffixes@).len() == 3);
    assert(texts(suffixes@)[0] == suffixes@[0]@);
    assert(texts(suffixes@)[1] == suffixes@[1]@);
    assert(texts(suffixes@)[2] == suffixes@[2]@);
}

} // verus!
