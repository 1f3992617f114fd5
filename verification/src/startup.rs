//! How a database is opened: which ones are refused before anything is written,
//! and by which steps an older one is brought to the current version.
use crate::error::PersistenceError;
use crate::schema::{version_number, SchemaVersion};
use crate::text::{opt_text, same_text};
use vstd::prelude::*;
use vstd::string::*;

verus! {

/// The current version of the schema.
pub const CURRENT_SCHEMA: u32 = 9;

/// Accepts a database that is bound to no library root or to the given one.
/// `stored` is none where nothing is stored, or no table that could hold it.
pub fn validate_root_binding(stored: &Option<String>, canonical_root: &String) -> (result: Result<
    (),
    PersistenceError,
>)
    ensures
        result == (if *stored is Some && (*stored)->0@ != canonical_root@ {
            Err::<(), PersistenceError>(PersistenceError::RootMismatch)
        } else {
            Ok::<(), PersistenceError>(())
        }),
{
    match stored {
        Some(root) => if same_text(root, canonical_root) {
            Ok(())
        } else {
            Err(PersistenceError::RootMismatch)
        },
        None => Ok(()),
    }
}

/// What is read of a database before it is opened for writing: its version, the
/// root it is bound to, whether it holds Original Files, what the rows of a
/// database without a version were found to be, and whether its schema is
/// exactly that of its version.
#[derive(Debug)]
pub struct PreflightFacts {
    pub version: u32,
    pub stored_root: Option<String>,
    pub has_original_files: bool,
    pub legacy: Result<(), PersistenceError>,
    pub canonical: bool,
}

/// What is said of a database before it is opened for writing.
pub open spec fn preflight(
    facts: PreflightFacts,
    canonical_root: Seq<char>,
    maximum: u32,
) -> Result<(), PersistenceError> {
    if facts.version > maximum {
        Err(PersistenceError::NewerSchema)
    } else if facts.stored_root is Some && facts.stored_root->0@ != canonical_root {
        Err(PersistenceError::RootMismatch)
    } else if facts.version == 0 {
        if facts.has_original_files {
            facts.legacy
        } else {
            Ok(())
        }
    } else if facts.canonical {
        Ok(())
    } else {
        Err(PersistenceError::UnsupportedSchema)
    }
}

/// Says whether a database may be opened for writing by a program that knows the
/// versions up to a maximum.
pub fn preflight_schema_for_max_version(
    facts: PreflightFacts,
    canonical_root: &String,
    maximum_version: u32,
) -> (result: Result<(), PersistenceError>)
    requires
        maximum_version <= CURRENT_SCHEMA,
    ensures
        result == preflight(facts, canonical_root@, maximum_version),
{
    if facts.version > maximum_version {
        return Err(PersistenceError::NewerSchema);
    }
    match validate_root_binding(&facts.stored_root, canonical_root) {
        Ok(_) => {},
        Err(error) => {
            return Err(error);
        },
    }
    if facts.version == 0 {
        if facts.has_original_files {
            facts.legacy
        } else {
            Ok(())
        }
    } else if facts.canonical {
        Ok(())
    } else {
        Err(PersistenceError::UnsupportedSchema)
    }
}

/// Says whether a database may be opened for writing.
pub fn preflight_schema(facts: PreflightFacts, canonical_root: &String) -> (result: Result<
    (),
    PersistenceError,
>)
    ensures
        result == preflight(facts, canonical_root@, CURRENT_SCHEMA),
{
    preflight_schema_for_max_version(facts, canonical_root, CURRENT_SCHEMA)
}

/// A program that knows fewer versions refuses every database of a later one,
/// whatever else it holds.
pub proof fn law_older_programs_refuse_newer_databases(
    facts: PreflightFacts,
    canonical_root: Seq<char>,
    maximum: u32,
)
    requires
        facts.version > maximum,
    ensures
        preflight(facts, canonical_root, maximum) == Err::<(), PersistenceError>(
            PersistenceError::NewerSchema,
        ),
{
}

/// A step that brings a database towards the current version. A check accepts
/// nothing but the exact schema of a version; the others write.
#[derive(Clone, Copy, Debug, PartialEq, Eq, Structural)]
pub enum MigrationStep {
    Check(SchemaVersion),
    FromNothing,
    AddDecisions,
    AddCaptureFacts,
    MarkVersionFour,
    RenameAlbums,
    SplitPairs,
    AddRecipes,
    AddExports,
    AddRemovals,
    BindRoot,
    CheckIntegrity,
}

/// The version that a step applies to, and the one that it leaves.
pub open spec fn step_versions(step: MigrationStep) -> (int, int) {
    match step {
        MigrationStep::Check(version) => (version_number(version) as int, version_number(
            version,
        ) as int),
        MigrationStep::FromNothing => (0, 1),
        MigrationStep::AddDecisions => (1, 2),
        MigrationStep::AddCaptureFacts => (2, 3),
        MigrationStep::MarkVersionFour => (3, 4),
        MigrationStep::RenameAlbums => (4, 5),
        MigrationStep::SplitPairs => (5, 6),
        MigrationStep::AddRecipes => (6, 7),
        MigrationStep::AddExports => (7, 8),
        MigrationStep::AddRemovals => (8, 9),
        MigrationStep::BindRoot => (9, 9),
        MigrationStep::CheckIntegrity => (9, 9),
    }
}

/// The step that writes the next version.
pub open spec fn next_step(version: int) -> MigrationStep {
    if version == 0 {
        MigrationStep::FromNothing
    } else if version == 1 {
        MigrationStep::AddDecisions
    } else if version == 2 {
        MigrationStep::AddCaptureFacts
    } else if version == 3 {
        MigrationStep::MarkVersionFour
    } else if version == 4 {
        MigrationStep::RenameAlbums
    } else if version == 5 {
        MigrationStep::SplitPairs
    } else if version == 6 {
        MigrationStep::AddRecipes
    } else if version == 7 {
        MigrationStep::AddExports
    } else {
        MigrationStep::AddRemovals
    }
}

/// The check of a version.
pub open spec fn check_step(version: int) -> MigrationStep {
    MigrationStep::Check(
        if version == 1 {
            SchemaVersion::V1
        } else if version == 2 {
            SchemaVersion::V2
        } else if version == 3 {
            SchemaVersion::V3
        } else if version == 4 {
            SchemaVersion::V4
        } else if version == 5 {
            SchemaVersion::V5
        } else if version == 6 {
            SchemaVersion::V6
        } else if version == 7 {
            SchemaVersion::V7
        } else if version == 8 {
            SchemaVersion::V8
        } else {
            SchemaVersion::V9
        },
    )
}

/// The steps from a version on, up to the current one. The schema is checked
/// behind the first step of a database without a version, and before and behind
/// each of the later ones that rebuild tables.
pub open spec fn steps_from(version: int) -> Seq<MigrationStep>
    decreases 9 - version,
{
    if version >= 9 || version < 0 {
        Seq::empty()
    } else {
        let step = seq![next_step(version)];
        let before = if version >= 6 {
            seq![check_step(version)]
        } else {
            Seq::empty()
        };
        let behind = if version == 0 || version >= 5 {
            seq![check_step(version + 1)]
        } else {
            Seq::empty()
        };
        before + step + behind + steps_from(version + 1)
    }
}

/// The steps behind the migrations: the database is bound to its root, and its
/// integrity and its schema are checked.
pub open spec fn closing_steps() -> Seq<MigrationStep> {
    seq![MigrationStep::BindRoot, MigrationStep::CheckIntegrity, check_step(9)]
}

/// The steps that bring a database of a version to the current one: the check of
/// its version, where it has one, then the migrations, then the closing steps.
pub open spec fn migration_plan(version: int) -> Seq<MigrationStep> {
    let first = if version == 0 {
        Seq::empty()
    } else {
        seq![check_step(version)]
    };
    first + steps_from(version) + closing_steps()
}

/// The version that steps lead to from a version, none if a step does not apply
/// to the version that it meets.
pub open spec fn version_after(version: int, steps: Seq<MigrationStep>) -> Option<int>
    decreases steps.len(),
{
    if steps.len() == 0 {
        Some(version)
    } else {
        match version_after(version, steps.drop_last()) {
            Some(reached) => if step_versions(steps.last()).0 == reached {
                Some(step_versions(steps.last()).1)
            } else {
                None
            },
            None => None,
        }
    }
}

proof fn lemma_version_after_sum(version: int, a: Seq<MigrationStep>, b: Seq<MigrationStep>)
    ensures
        version_after(version, a + b) == match version_after(version, a) {
            Some(reached) => version_after(reached, b),
            None => None,
        },
    decreases b.len(),
{
    if b.len() == 0 {
        assert(a + b =~= a);
    } else {
        lemma_version_after_sum(version, a, b.drop_last());
        assert((a + b).drop_last() =~= a + b.drop_last());
        assert((a + b).last() == b.last());
    }
}

proof fn lemma_one_step(version: int, step: MigrationStep)
    ensures
        version_after(version, seq![step]) == if step_versions(step).0 == version {
            Some(step_versions(step).1)
        } else {
            None
        },
{
    assert(seq![step].drop_last() =~= Seq::<MigrationStep>::empty());
    assert(seq![step].last() == step);
    assert(version_after(version, Seq::<MigrationStep>::empty()) == Some(version));
}

proof fn lemma_steps_reach_current(version: int)
    requires
        0 <= version <= 9,
    ensures
        version_after(version, steps_from(version)) == Some(9int),
    decreases 9 - version,
{
    if version < 9 {
        lemma_steps_reach_current(version + 1);
        let step = seq![next_step(version)];
        let before = if version >= 6 {
            seq![check_step(version)]
        } else {
            Seq::empty()
        };
        let behind = if version == 0 || version >= 5 {
            seq![check_step(version + 1)]
        } else {
            Seq::empty()
        };
        lemma_one_step(version, next_step(version));
        lemma_one_step(version, check_step(version));
        lemma_one_step(version + 1, check_step(version + 1));
        lemma_version_after_sum(version, before, step);
        lemma_version_after_sum(version, before + step, behind);
        lemma_version_after_sum(version, before + step + behind, steps_from(version + 1));
    }
}

/// Whatever version a database has, each step of its plan meets the version that
/// it applies to, and the last one leaves the current version.
pub proof fn law_plans_reach_the_current_version(version: int)
    requires
        0 <= version <= 9,
    ensures
        version_after(version, migration_plan(version)) == Some(9int),
{
    lemma_steps_reach_current(version);
    lemma_one_step(version, check_step(version));
    lemma_one_step(9, check_step(9));
    let first = if version == 0 {
        Seq::empty()
    } else {
        seq![check_step(version)]
    };
    lemma_version_after_sum(version, first, steps_from(version));
    lemma_one_step(9, MigrationStep::BindRoot);
    lemma_one_step(9, MigrationStep::CheckIntegrity);
    let bound = seq![MigrationStep::BindRoot];
    let checked = seq![MigrationStep::CheckIntegrity];
    lemma_version_after_sum(9, bound, checked);
    lemma_version_after_sum(9, bound + checked, seq![check_step(9)]);
    assert(bound + checked + seq![check_step(9)] =~= closing_steps());
    lemma_version_after_sum(version, first + steps_from(version), closing_steps());
}

fn check_of(version: u32) -> (step: MigrationStep)
    requires
        1 <= version <= 9,
    ensures
        step == check_step(version as int),
{
    MigrationStep::Check(
        match version {
            1 => SchemaVersion::V1,
            2 => SchemaVersion::V2,
            3 => SchemaVersion::V3,
            4 => SchemaVersion::V4,
            5 => SchemaVersion::V5,
            6 => SchemaVersion::V6,
            7 => SchemaVersion::V7,
            8 => SchemaVersion::V8,
            _ => SchemaVersion::V9,
        },
    )
}

fn step_from(version: u32) -> (step: MigrationStep)
    requires
        version < 9,
    ensures
        step == next_step(version as int),
{
    match version {
        0 => MigrationStep::FromNothing,
        1 => MigrationStep::AddDecisions,
        2 => MigrationStep::AddCaptureFacts,
        3 => MigrationStep::MarkVersionFour,
        4 => MigrationStep::RenameAlbums,
        5 => MigrationStep::SplitPairs,
        6 => MigrationStep::AddRecipes,
        7 => MigrationStep::AddExports,
        _ => MigrationStep::AddRemovals,
    }
}

/// The plan that brings a database to the current version, or why it is refused:
/// it is of a later version, or bound to another root.
pub fn startup_schema(version: u32, stored_root: &Option<String>, canonical_root: &String) -> (plan:
    Result<Vec<MigrationStep>, PersistenceError>)
    ensures
        if version > CURRENT_SCHEMA {
            plan == Err::<Vec<MigrationStep>, PersistenceError>(PersistenceError::NewerSchema)
        } else if *stored_root is Some && (*stored_root)->0@ != canonical_root@ {
            plan == Err::<Vec<MigrationStep>, PersistenceError>(PersistenceError::RootMismatch)
        } else {
            plan is Ok && plan->Ok_0@ == migration_plan(version as int)
        },
{
    if version > CURRENT_SCHEMA {
        return Err(PersistenceError::NewerSchema);
    }
    match validate_root_binding(stored_root, canonical_root) {
        Ok(_) => {},
        Err(error) => {
            return Err(error);
        },
    }
    let mut plan: Vec<MigrationStep> = Vec::new();
    if version > 0 {
        plan.push(check_of(version));
    }
    let ghost first = plan@;
    let mut reached: u32 = version;
    assert(first + steps_from(version as int) =~= plan@ + steps_from(reached as int));
    while reached < 9
        invariant
            version <= reached <= 9,
            first + steps_from(version as int) == plan@ + steps_from(reached as int),
        decreases 9 - reached,
    {
        let ghost start = plan@;
        if reached >= 6 {
            plan.push(check_of(reached));
        }
        plan.push(step_from(reached));
        if reached == 0 || reached >= 5 {
            plan.push(check_of(reached + 1));
        }
        assert(start + steps_from(reached as int) =~= plan@ + steps_from(reached + 1));
        reached = reached + 1;
    }
    assert(plan@ + steps_from(9) =~= plan@);
    assert(plan@ + closing_steps() =~= plan@.push(MigrationStep::BindRoot).push(
        MigrationStep::CheckIntegrity,
    ).push(check_step(9)));
    plan.push(MigrationStep::BindRoot);
    plan.push(MigrationStep::CheckIntegrity);
    plan.push(check_of(9));
    proof {
        assert(first =~= (if version == 0 {
            Seq::empty()
        } else {
            seq![check_step(version as int)]
        }));
    }
    Ok(plan)
}

/// What a step is answered whose statements fail: a schema that is not the
/// expected one is not supported, and everything else is a failure of storage.
pub fn step_failure(step: MigrationStep) -> (error: PersistenceError)
    ensures
        error == (if step is Check {
            PersistenceError::UnsupportedSchema
        } else {
            PersistenceError::Storage
        }),
{
    match step {
        MigrationStep::Check(_) => PersistenceError::UnsupportedSchema,
        _ => PersistenceError::Storage,
    }
}

/// The root to bind a database to once it is current: the given one where none
/// is stored.
pub fn root_to_bind(stored_root: &Option<String>, canonical_root: &String) -> (bind: Option<String>)
    ensures
        opt_text(bind) == (if *stored_root is Some {
            None
        } else {
            Some(canonical_root@)
        }),
{
    match stored_root {
        Some(_) => None,
        None => Some(canonical_root.clone()),
    }
}

/// Accepts a database in which every foreign key leads somewhere and whose
/// integrity check says "ok".
pub fn validate_database(dangling_keys: bool, integrity: &String) -> (result: Result<
    (),
    PersistenceError,
>)
    ensures
        result == (if !dangling_keys && integrity@ == "ok"@ {
            Ok::<(), PersistenceError>(())
        } else {
            Err::<(), PersistenceError>(PersistenceError::Storage)
        }),
{
    if dangling_keys || !crate::text::is_text(integrity, "ok") {
        Err(PersistenceError::Storage)
    } else {
        Ok(())
    }
}

/// A database is sound where no key dangles and the integrity check says so, and is
/// refused otherwise.
pub proof fn law_databases_are_sound(
    dangling_keys: bool,
    integrity: String,
    result: Result<(), PersistenceError>,
)
    requires
        call_ensures(validate_database, (dangling_keys, &integrity), result),
    ensures
        result is Ok <==> !dangling_keys && integrity@ == "ok"@,
        result is Err ==> result->Err_0 == PersistenceError::Storage,
{
}

/// A database that is bound to another root is refused; one that is bound to no root is
/// bound to the one given, and one that is bound to it stays.
pub proof fn law_roots_are_bound_once(
    stored: Option<String>,
    canonical_root: String,
    result: Result<(), PersistenceError>,
    bind: Option<String>,
)
    requires
        call_ensures(validate_root_binding, (&stored, &canonical_root), result),
        call_ensures(root_to_bind, (&stored, &canonical_root), bind),
    ensures
        stored is None ==> result is Ok && bind is Some && bind->0@ == canonical_root@,
        stored is Some ==> bind is None && (result is Ok <==> stored->0@ == canonical_root@),
        result is Err ==> result->Err_0 == PersistenceError::RootMismatch,
{
}

/// Before anything is changed a database is refused where it is newer than the program
/// or bound to another root. A database without a version that holds Original Files must
/// be one of the old ones; any other must have exactly the schema of its version.
pub proof fn law_databases_are_refused_before_they_change(
    facts: PreflightFacts,
    canonical_root: String,
    result: Result<(), PersistenceError>,
)
    requires
        call_ensures(preflight_schema, (facts, &canonical_root), result),
    ensures
        facts.version > 9 ==> result == Err::<(), PersistenceError>(PersistenceError::NewerSchema),
        facts.version <= 9 ==> {
            let elsewhere = facts.stored_root is Some && facts.stored_root->0@ != canonical_root@;
            &&& elsewhere ==> result == Err::<(), PersistenceError>(PersistenceError::RootMismatch)
            &&& !elsewhere && facts.version == 0 && facts.has_original_files ==> result
                == facts.legacy
            &&& !elsewhere && facts.version == 0 && !facts.has_original_files ==> result is Ok
            &&& !elsewhere && facts.version > 0 && facts.canonical ==> result is Ok
            &&& !elsewhere && facts.version > 0 && !facts.canonical ==> result == Err::<
                (),
                PersistenceError,
            >(PersistenceError::UnsupportedSchema)
        },
{
}

/// A step of a migration that fails is told as a schema that is not supported where it
/// checks one, and as a storage error otherwise.
pub proof fn law_failed_steps_are_told(step: MigrationStep, error: PersistenceError)
    requires
        call_ensures(step_failure, (step,), error),
    ensures
        step is Check ==> error == PersistenceError::UnsupportedSchema,
        !(step is Check) ==> error == PersistenceError::Storage,
{
}

proof fn lemma_step_taken(version: int, at: int)
    requires
        0 <= version <= at < 9,
    ensures
        steps_from(version).contains(next_step(at)),
        at >= 6 ==> steps_from(version).contains(check_step(at)),
        at >= 5 ==> steps_from(version).contains(check_step(at + 1)),
    decreases at - version,
{
    let step = seq![next_step(version)];
    let before = if version >= 6 {
        seq![check_step(version)]
    } else {
        Seq::empty()
    };
    let behind = if version == 0 || version >= 5 {
        seq![check_step(version + 1)]
    } else {
        Seq::empty()
    };
    let rest = steps_from(version + 1);
    let all = before + step + behind + rest;
    assert(steps_from(version) == all);
    if version == at {
        assert(all[before.len() as int] == next_step(at));
        if at >= 6 {
            assert(all[0] == check_step(at));
        }
        if at >= 5 {
            assert(all[before.len() as int + 1] == check_step(at + 1));
        }
    } else {
        lemma_step_taken(version + 1, at);
        let n = (before + step + behind).len() as int;
        let k = choose|k: int| 0 <= k < rest.len() && rest[k] == next_step(at);
        assert(all[n + k] == next_step(at));
        if at >= 6 {
            let k = choose|k: int| 0 <= k < rest.len() && rest[k] == check_step(at);
            assert(all[n + k] == check_step(at));
        }
        if at >= 5 {
            let k = choose|k: int| 0 <= k < rest.len() && rest[k] == check_step(at + 1);
            assert(all[n + k] == check_step(at + 1));
        }
    }
}

/// A start takes every migration from the version of the database on, checks the schema
/// before and after each of the later ones, binds the root, checks the database, and
/// checks the schema of the current version last.
pub proof fn law_starts_take_every_migration(
    version: u32,
    stored_root: Option<String>,
    canonical_root: String,
    plan: Result<Vec<MigrationStep>, PersistenceError>,
)
    requires
        call_ensures(startup_schema, (version, &stored_root, &canonical_root), plan),
    ensures
        version > 9 ==> plan == Err::<Vec<MigrationStep>, PersistenceError>(
            PersistenceError::NewerSchema,
        ),
        version <= 9 && stored_root is Some && stored_root->0@ != canonical_root@ ==> plan
            == Err::<Vec<MigrationStep>, PersistenceError>(PersistenceError::RootMismatch),
        version <= 9 && !(stored_root is Some && stored_root->0@ != canonical_root@) ==> {
            let steps = plan->Ok_0@;
            let n = steps.len() as int;
            &&& plan is Ok
            &&& n >= 3
            &&& steps[n - 3] == MigrationStep::BindRoot
            &&& steps[n - 2] == MigrationStep::CheckIntegrity
            &&& steps[n - 1] == MigrationStep::Check(SchemaVersion::V9)
            &&& version == 0 ==> steps.contains(MigrationStep::FromNothing)
            &&& version <= 1 ==> steps.contains(MigrationStep::AddDecisions)
            &&& version <= 2 ==> steps.contains(MigrationStep::AddCaptureFacts)
            &&& version <= 3 ==> steps.contains(MigrationStep::MarkVersionFour)
            &&& version <= 4 ==> steps.contains(MigrationStep::RenameAlbums)
            &&& version <= 5 ==> steps.contains(MigrationStep::SplitPairs)
            &&& version <= 6 ==> steps.contains(MigrationStep::AddRecipes) && steps.contains(
                MigrationStep::Check(SchemaVersion::V6),
            )
            &&& version <= 7 ==> steps.contains(MigrationStep::AddExports) && steps.contains(
                MigrationStep::Check(SchemaVersion::V7),
            )
            &&& version <= 8 ==> steps.contains(MigrationStep::AddRemovals) && steps.contains(
                MigrationStep::Check(SchemaVersion::V8),
            )
            &&& version == 1 ==> steps[0] == MigrationStep::Check(SchemaVersion::V1)
            &&& version == 2 ==> steps[0] == MigrationStep::Check(SchemaVersion::V2)
            &&& version == 3 ==> steps[0] == MigrationStep::Check(SchemaVersion::V3)
            &&& version == 4 ==> steps[0] == MigrationStep::Check(SchemaVersion::V4)
            &&& version == 5 ==> steps[0] == MigrationStep::Check(SchemaVersion::V5)
        },
{
    if version <= 9 && !(stored_root is Some && stored_root->0@ != canonical_root@) {
        let steps = plan->Ok_0@;
        let v = version as int;
        let first = if v == 0 {
            Seq::<MigrationStep>::empty()
        } else {
            seq![check_step(v)]
        };
        let middle = steps_from(v);
        assert(steps == first + middle + closing_steps());
        assert forall|x: MigrationStep| #[trigger] middle.contains(x) implies steps.contains(x) by {
            let k = choose|k: int| 0 <= k < middle.len() && middle[k] == x;
            assert(steps[first.len() as int + k] == x);
        }
        assert forall|at: int| v <= at < 9 implies middle.contains(#[trigger] next_step(at)) by {
            lemma_step_taken(v, at);
        }
        assert forall|at: int| v <= at < 9 && at >= 6 implies middle.contains(
            #[trigger] check_step(at),
        ) by {
            lemma_step_taken(v, at);
        }
        if v <= 5 {
            lemma_step_taken(v, 5);
        }
        assert(v <= 0 ==> steps.contains(next_step(0)));
        assert(v <= 1 ==> steps.contains(next_step(1)));
        assert(v <= 2 ==> steps.contains(next_step(2)));
        assert(v <= 3 ==> steps.contains(next_step(3)));
        assert(v <= 4 ==> steps.contains(next_step(4)));
        assert(v <= 5 ==> steps.contains(next_step(5)) && steps.contains(check_step(6)));
        assert(v <= 6 ==> steps.contains(next_step(6)) && steps.contains(check_step(6)));
        assert(v <= 7 ==> steps.contains(next_step(7)) && steps.contains(check_step(7)));
        assert(v <= 8 ==> steps.contains(next_step(8)) && steps.contains(check_step(8)));
    }
}

} // verus!
