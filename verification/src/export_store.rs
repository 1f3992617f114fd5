//! The Exports and download leases that are stored: how many bytes they hold
//! reserved, which ones have expired, and who may download.
use crate::error::PersistenceError;
use crate::export::{
    clone_export_row, export_record_from_row, record_of, row_whole, ExportArtifactFacts,
    ExportRecord, ExportRow, ExportState,
};
use crate::limits::MAXIMUM_EXPORT_BYTES;
use crate::order::text_less;
use crate::sorting::{
    key_less, keys_view, law_keys_of_one_rank_stand_by_text, law_sorting_orders_every_row,
    rows_view, sort_order, sorted_rows, KeyView, SortKey,
};
use crate::text::{lemma_texts_push, opt_text, same_text, texts};
use vstd::prelude::*;
use vstd::string::*;

verus! {

/// The most Exports of a Photo that are listed.
pub const EXPORT_LIST_LIMIT: usize = 60;

/// How long a download lease is kept that nobody renews, in seconds.
pub const EXPORT_LEASE_STALE_SECONDS: u64 = 86_400;

/// A download of an artifact that is under way.
#[derive(Clone, Debug, PartialEq, Eq)]
pub struct ExportLease {
    pub id: String,
    pub export_id: String,
    pub created_at: u64,
}

/// A copy of a lease.
pub fn clone_lease(lease: &ExportLease) -> (copy: ExportLease)
    ensures
        copy == *lease,
{
    ExportLease {
        id: lease.id.clone(),
        export_id: lease.export_id.clone(),
        created_at: lease.created_at,
    }
}

/// A time as the database compares it: a signed number of 64 bits, so that the
/// upper half of the times reads as negative.
pub open spec fn stored_time(time: u64) -> int {
    if time <= i64::MAX {
        time as int
    } else {
        time as int - 0x1_0000_0000_0000_0000
    }
}

/// A time as the database compares it.
pub fn time_to_store(time: u64) -> (stored: i64)
    ensures
        stored == stored_time(time),
{
    if time <= i64::MAX as u64 {
        time as i64
    } else {
        -((u64::MAX - time) as i64) - 1
    }
}

/// Whether a download of an Export is under way.
pub open spec fn leased(leases: Seq<ExportLease>, export_id: Seq<char>) -> bool {
    exists|i: int| 0 <= i < leases.len() && (#[trigger] leases[i]).export_id@ == export_id
}

fn is_leased(leases: &Vec<ExportLease>, export_id: &String) -> (answer: bool)
    ensures
        answer == leased(leases@, export_id@),
{
    let mut i: usize = 0;
    while i < leases.len()
        invariant
            i <= leases.len(),
            forall|j: int| 0 <= j < i ==> (#[trigger] leases@[j]).export_id@ != export_id@,
        decreases leases.len() - i,
    {
        if same_text(&leases[i].export_id, export_id) {
            assert(leases@[i as int].export_id@ == export_id@);
            return true;
        }
        i = i + 1;
    }
    false
}

/// What the room that an Export takes depends on.
#[derive(Clone, Debug, PartialEq, Eq)]
pub struct ExportHold {
    pub id: String,
    pub state: ExportState,
    pub artifact_size: Option<u64>,
    pub artifact_expires_at: Option<u64>,
}

/// What the room that the row of an Export takes depends on.
pub open spec fn hold_of(row: ExportRow) -> ExportHold {
    ExportHold {
        id: row.id,
        state: row.state,
        artifact_size: row.artifact_size,
        artifact_expires_at: row.artifact_expires_at,
    }
}

/// What the room that the row of an Export takes depends on.
pub fn export_hold(row: &ExportRow) -> (hold: ExportHold)
    ensures
        hold == hold_of(*row),
{
    ExportHold {
        id: row.id.clone(),
        state: row.state,
        artifact_size: row.artifact_size,
        artifact_expires_at: row.artifact_expires_at,
    }
}

/// Whether the disclosed expiry of an artifact is after a time.
pub open spec fn expires_after(hold: ExportHold, now: u64) -> bool {
    hold.artifact_expires_at is Some && hold.artifact_expires_at->0 > stored_time(now)
}

/// The bytes that an Export holds reserved: the whole bound while it is
/// unfinished, the size of its artifact until that has expired and nobody
/// downloads it.
pub open spec fn reserved_by(hold: ExportHold, leases: Seq<ExportLease>, now: u64) -> nat {
    if hold.state == ExportState::Queued || hold.state == ExportState::Running {
        MAXIMUM_EXPORT_BYTES as nat
    } else if hold.state == ExportState::Succeeded && (leased(leases, hold.id@) || expires_after(
        hold,
        now,
    )) {
        match hold.artifact_size {
            Some(size) => size as nat,
            None => 0,
        }
    } else {
        0
    }
}

/// The bytes that Exports hold reserved.
pub open spec fn reserved(holds: Seq<ExportHold>, leases: Seq<ExportLease>, now: u64) -> nat
    decreases holds.len(),
{
    if holds.len() == 0 {
        0
    } else {
        reserved(holds.drop_last(), leases, now) + reserved_by(holds.last(), leases, now)
    }
}

proof fn lemma_reserved_gholds(
    holds: Seq<ExportHold>,
    leases: Seq<ExportLease>,
    now: u64,
    n: int,
)
    requires
        0 <= n <= holds.len(),
    ensures
        reserved(holds.take(n), leases, now) <= reserved(holds, leases, now),
    decreases holds.len(),
{
    if n == holds.len() {
        assert(holds.take(n) =~= holds);
    } else {
        assert(holds.drop_last().take(n) =~= holds.take(n));
        lemma_reserved_gholds(holds.drop_last(), leases, now, n);
    }
}

/// Counts the bytes that Exports hold reserved. A sum that the database cannot
/// hold is a failure of storage.
pub fn reserved_retained_bytes(holds: &Vec<ExportHold>, leases: &Vec<ExportLease>, now: u64) -> (total:
    Result<u64, PersistenceError>)
    ensures
        ({
            let sum = reserved(holds@, leases@, now);
            total == (if sum <= i64::MAX {
                Ok::<u64, PersistenceError>(sum as u64)
            } else {
                Err::<u64, PersistenceError>(PersistenceError::Storage)
            })
        }),
{
    let limit: u64 = i64::MAX as u64;
    let mut total: u64 = 0;
    let mut i: usize = 0;
    assert(holds@.take(0) =~= Seq::<ExportHold>::empty());
    while i < holds.len()
        invariant
            i <= holds.len(),
            limit == i64::MAX,
            total <= limit,
            total == reserved(holds@.take(i as int), leases@, now),
        decreases holds.len() - i,
    {
        let hold: &ExportHold = &holds[i];
        proof {
            assert(holds@.take(i + 1).drop_last() =~= holds@.take(i as int));
            assert(holds@.take(i + 1).last() == *hold);
            lemma_reserved_gholds(holds@, leases@, now, i + 1);
        }
        let open: bool = match hold.artifact_expires_at {
            Some(expires_at) => expires_at as i128 > time_to_store(now) as i128,
            None => false,
        };
        let bytes: u64 = if hold.state == ExportState::Queued || hold.state == ExportState::Running {
            MAXIMUM_EXPORT_BYTES
        } else if hold.state == ExportState::Succeeded && (is_leased(leases, &hold.id) || open) {
            match hold.artifact_size {
                Some(size) => size,
                None => 0,
            }
        } else {
            0
        };
        if bytes > limit - total {
            return Err(PersistenceError::Storage);
        }
        total = total + bytes;
        i = i + 1;
    }
    assert(holds@.take(holds@.len() as int) =~= holds@);
    Ok(total)
}

/// Whether one more Export fits into an allowance.
pub fn reservable(
    holds: &Vec<ExportHold>,
    leases: &Vec<ExportLease>,
    now: u64,
    allowance: u64,
) -> (fits: Result<bool, PersistenceError>)
    ensures
        ({
            let sum = reserved(holds@, leases@, now);
            fits == (if sum > i64::MAX {
                Err::<bool, PersistenceError>(PersistenceError::Storage)
            } else {
                Ok::<bool, PersistenceError>(sum + MAXIMUM_EXPORT_BYTES <= allowance)
            })
        }),
{
    match reserved_retained_bytes(holds, leases, now) {
        Ok(total) => Ok(total + MAXIMUM_EXPORT_BYTES <= allowance),
        Err(error) => Err(error),
    }
}

/// An Export that is accepted within an allowance stays within it: what is
/// reserved afterwards is what was reserved and the bound of the new one.
pub proof fn law_reservations_stay_in_the_allowance(
    holds: Seq<ExportHold>,
    leases: Seq<ExportLease>,
    now: u64,
    row: ExportRow,
    allowance: u64,
)
    requires
        row.state == ExportState::Queued,
        reserved(holds, leases, now) + MAXIMUM_EXPORT_BYTES <= allowance,
    ensures
        reserved(holds.push(hold_of(row)), leases, now) == reserved(holds, leases, now)
            + MAXIMUM_EXPORT_BYTES,
        reserved(holds.push(hold_of(row)), leases, now) <= allowance,
{
    assert(holds.push(hold_of(row)).drop_last() =~= holds);
}

/// Whether a lease has not been renewed for too long.
pub open spec fn stale_lease(lease: ExportLease, now: u64) -> bool {
    lease.created_at < stored_time(
        (if now > EXPORT_LEASE_STALE_SECONDS {
            now - EXPORT_LEASE_STALE_SECONDS
        } else {
            0
        }) as u64,
    )
}

/// The leases that are kept.
pub open spec fn live_leases(leases: Seq<ExportLease>, now: u64) -> Seq<ExportLease>
    decreases leases.len(),
{
    if leases.len() == 0 {
        Seq::empty()
    } else if stale_lease(leases.last(), now) {
        live_leases(leases.drop_last(), now)
    } else {
        live_leases(leases.drop_last(), now).push(leases.last())
    }
}

/// Whether the artifact of an Export has expired.
pub open spec fn artifact_expired(row: ExportRow, leases: Seq<ExportLease>, now: u64) -> bool {
    row.state == ExportState::Succeeded && row.artifact_expires_at is Some
        && row.artifact_expires_at->0 <= stored_time(now) && !leased(leases, row.id@)
}

/// Whether the record of an Export has expired.
pub open spec fn record_expired(row: ExportRow, leases: Seq<ExportLease>, now: u64) -> bool {
    row.retain_until is Some && row.retain_until->0 <= stored_time(now) && !leased(leases, row.id@)
}

/// An Export after a sweep that keeps it.
pub open spec fn swept_row(row: ExportRow, leases: Seq<ExportLease>, now: u64) -> ExportRow {
    if artifact_expired(row, leases, now) {
        ExportRow {
            artifact_size: None,
            artifact_sha256: None,
            artifact_expires_at: None,
            ..row
        }
    } else {
        row
    }
}

/// The Exports that a sweep keeps.
pub open spec fn kept_rows(rows: Seq<ExportRow>, leases: Seq<ExportLease>, now: u64) -> Seq<
    ExportRow,
>
    decreases rows.len(),
{
    if rows.len() == 0 {
        Seq::empty()
    } else {
        let before = kept_rows(rows.drop_last(), leases, now);
        if record_expired(rows.last(), leases, now) {
            before
        } else {
            before.push(swept_row(rows.last(), leases, now))
        }
    }
}

/// The Exports whose artifacts have expired, in the order of their rows.
pub open spec fn expired_artifacts(
    rows: Seq<ExportRow>,
    leases: Seq<ExportLease>,
    now: u64,
) -> Seq<Seq<char>>
    decreases rows.len(),
{
    if rows.len() == 0 {
        Seq::empty()
    } else {
        let before = expired_artifacts(rows.drop_last(), leases, now);
        if artifact_expired(rows.last(), leases, now) {
            before.push(rows.last().id@)
        } else {
            before
        }
    }
}

/// The Exports whose records have expired, in the order of their rows.
pub open spec fn expired_records(
    rows: Seq<ExportRow>,
    leases: Seq<ExportLease>,
    now: u64,
) -> Seq<Seq<char>>
    decreases rows.len(),
{
    if rows.len() == 0 {
        Seq::empty()
    } else {
        let before = expired_records(rows.drop_last(), leases, now);
        if record_expired(rows.last(), leases, now) {
            before.push(rows.last().id@)
        } else {
            before
        }
    }
}

/// What a sweep did.
#[derive(Clone, Debug, PartialEq, Eq)]
pub struct ExportSweepResult {
    pub artifact_expiry_ids: Vec<String>,
    pub record_expiry_ids: Vec<String>,
}

/// The Exports and leases after a sweep, and what it did. Every expired record
/// leaves its mark, so that its identity stays expired.
#[derive(Clone, Debug, PartialEq, Eq)]
pub struct ExportSweep {
    pub rows: Vec<ExportRow>,
    pub leases: Vec<ExportLease>,
    pub result: ExportSweepResult,
}

fn keep_live(leases: &Vec<ExportLease>, now: u64) -> (kept: Vec<ExportLease>)
    ensures
        kept@ == live_leases(leases@, now),
{
    let bound: u64 = if now > EXPORT_LEASE_STALE_SECONDS {
        now - EXPORT_LEASE_STALE_SECONDS
    } else {
        0
    };
    let mut kept: Vec<ExportLease> = Vec::new();
    let mut i: usize = 0;
    assert(leases@.take(0) =~= Seq::<ExportLease>::empty());
    while i < leases.len()
        invariant
            i <= leases.len(),
            bound == (if now > EXPORT_LEASE_STALE_SECONDS {
                now - EXPORT_LEASE_STALE_SECONDS
            } else {
                0
            }) as u64,
            kept@ == live_leases(leases@.take(i as int), now),
        decreases leases.len() - i,
    {
        proof {
            assert(leases@.take(i + 1).drop_last() =~= leases@.take(i as int));
            assert(leases@.take(i + 1).last() == leases@[i as int]);
        }
        if !((leases[i].created_at as i128) < time_to_store(bound) as i128) {
            kept.push(clone_lease(&leases[i]));
        }
        i = i + 1;
    }
    assert(leases@.take(leases@.len() as int) =~= leases@);
    kept
}

/// Reclaims what has expired: leases that nobody renews, artifacts whose expiry
/// has passed, and records whose retention has. What is being downloaded stays.
pub fn sweep_export_expiry(rows: &Vec<ExportRow>, leases: &Vec<ExportLease>, now: u64) -> (sweep:
    ExportSweep)
    ensures
        sweep.leases@ == live_leases(leases@, now),
        sweep.rows@ == kept_rows(rows@, live_leases(leases@, now), now),
        texts(sweep.result.artifact_expiry_ids@) == expired_artifacts(
            rows@,
            live_leases(leases@, now),
            now,
        ),
        texts(sweep.result.record_expiry_ids@) == expired_records(
            rows@,
            live_leases(leases@, now),
            now,
        ),
{
    let live: Vec<ExportLease> = keep_live(leases, now);
    let time: i64 = time_to_store(now);
    let mut kept: Vec<ExportRow> = Vec::new();
    let mut artifacts: Vec<String> = Vec::new();
    let mut records: Vec<String> = Vec::new();
    let mut i: usize = 0;
    proof {
        assert(rows@.take(0) =~= Seq::<ExportRow>::empty());
        assert(texts(artifacts@) =~= Seq::<Seq<char>>::empty());
        assert(texts(records@) =~= Seq::<Seq<char>>::empty());
    }
    while i < rows.len()
        invariant
            i <= rows.len(),
            time == stored_time(now),
            live@ == live_leases(leases@, now),
            kept@ == kept_rows(rows@.take(i as int), live@, now),
            texts(artifacts@) == expired_artifacts(rows@.take(i as int), live@, now),
            texts(records@) == expired_records(rows@.take(i as int), live@, now),
        decreases rows.len() - i,
    {
        let row: &ExportRow = &rows[i];
        proof {
            assert(rows@.take(i + 1).drop_last() =~= rows@.take(i as int));
            assert(rows@.take(i + 1).last() == *row);
            lemma_texts_push(artifacts@, row.id);
            lemma_texts_push(records@, row.id);
        }
        let downloading: bool = is_leased(&live, &row.id);
        let artifact_gone: bool = match row.artifact_expires_at {
            Some(expires_at) => row.state == ExportState::Succeeded && expires_at as i128
                <= time as i128 && !downloading,
            None => false,
        };
        let record_gone: bool = match row.retain_until {
            Some(retain_until) => retain_until as i128 <= time as i128 && !downloading,
            None => false,
        };
        if artifact_gone {
            artifacts.push(row.id.clone());
        }
        if record_gone {
            records.push(row.id.clone());
        } else {
            let mut copy: ExportRow = clone_export_row(row);
            if artifact_gone {
                copy.artifact_size = None;
                copy.artifact_sha256 = None;
                copy.artifact_expires_at = None;
            }
            kept.push(copy);
        }
        i = i + 1;
    }
    assert(rows@.take(rows@.len() as int) =~= rows@);
    ExportSweep {
        rows: kept,
        leases: live,
        result: ExportSweepResult { artifact_expiry_ids: artifacts, record_expiry_ids: records },
    }
}

/// A sweep keeps every Export that is being downloaded, as it is.
pub proof fn law_sweeps_keep_what_is_downloaded(
    rows: Seq<ExportRow>,
    leases: Seq<ExportLease>,
    now: u64,
    i: int,
)
    requires
        0 <= i < rows.len(),
        leased(leases, rows[i].id@),
    ensures
        kept_rows(rows, leases, now).contains(rows[i]),
    decreases rows.len(),
{
    let before = kept_rows(rows.drop_last(), leases, now);
    let after = kept_rows(rows, leases, now);
    if i == rows.len() - 1 {
        assert(after == before.push(rows.last()));
        assert(after[before.len() as int] == rows[i]);
    } else {
        law_sweeps_keep_what_is_downloaded(rows.drop_last(), leases, now, i);
        let k = choose|k: int| 0 <= k < before.len() && before[k] == rows[i];
        assert(after[k] == rows[i]);
    }
}

/// After a sweep no record is left whose retention has passed and that nobody
/// downloads, and no such artifact; every record that is gone is named.
pub proof fn law_sweeps_reclaim_what_expired(
    rows: Seq<ExportRow>,
    leases: Seq<ExportLease>,
    now: u64,
)
    ensures
        forall|i: int|
            0 <= i < kept_rows(rows, leases, now).len() ==> !record_expired(
                #[trigger] kept_rows(rows, leases, now)[i],
                leases,
                now,
            ) && !artifact_expired(kept_rows(rows, leases, now)[i], leases, now),
        forall|i: int|
            0 <= i < rows.len() && record_expired(#[trigger] rows[i], leases, now)
                ==> expired_records(rows, leases, now).contains(rows[i].id@),
        kept_rows(rows, leases, now).len() + expired_records(rows, leases, now).len()
            == rows.len(),
    decreases rows.len(),
{
    if rows.len() > 0 {
        let front = rows.drop_last();
        law_sweeps_reclaim_what_expired(front, leases, now);
        let before = kept_rows(front, leases, now);
        let after = kept_rows(rows, leases, now);
        let named_before = expired_records(front, leases, now);
        let named = expired_records(rows, leases, now);
        assert forall|i: int| 0 <= i < after.len() implies !record_expired(
            #[trigger] after[i],
            leases,
            now,
        ) && !artifact_expired(after[i], leases, now) by {
            if i < before.len() {
                assert(after[i] == before[i]);
            }
        }
        assert forall|i: int|
            0 <= i < rows.len() && record_expired(#[trigger] rows[i], leases, now) implies
            named.contains(rows[i].id@) by {
            if i < front.len() {
                assert(front[i] == rows[i]);
                assert(named_before.contains(rows[i].id@));
                let k = choose|k: int|
                    0 <= k < named_before.len() && named_before[k] == rows[i].id@;
                assert(named[k] == rows[i].id@);
            } else {
                assert(named[named_before.len() as int] == rows[i].id@);
            }
        }
    }
}

/// What a request to download an artifact is answered.
#[derive(Clone, Debug, PartialEq, Eq)]
pub enum ExportLeaseOutcome {
    Acquired { lease_id: String, artifact: ExportArtifactFacts },
    Expired,
    Unknown,
}

/// Whether a lease has an identity.
pub open spec fn lease_known(leases: Seq<ExportLease>, id: Seq<char>) -> bool {
    exists|i: int| 0 <= i < leases.len() && (#[trigger] leases[i]).id@ == id
}

fn find_lease(leases: &Vec<ExportLease>, id: &String) -> (index: Option<usize>)
    ensures
        match index {
            Some(i) => i < leases.len() && leases@[i as int].id@ == id@ && forall|j: int|
                0 <= j < i ==> (#[trigger] leases@[j]).id@ != id@,
            None => !lease_known(leases@, id@),
        },
{
    let mut i: usize = 0;
    while i < leases.len()
        invariant
            i <= leases.len(),
            forall|j: int| 0 <= j < i ==> (#[trigger] leases@[j]).id@ != id@,
        decreases leases.len() - i,
    {
        if same_text(&leases[i].id, id) {
            return Some(i);
        }
        i = i + 1;
    }
    None
}

/// Whether an outcome, and the leases after it, answer a request to download an Export.
pub open spec fn lease_answered(
    current: Option<ExportRow>,
    digest: Option<Seq<char>>,
    before: Seq<ExportLease>,
    export_id: Seq<char>,
    now: u64,
    token: Seq<char>,
    after: Seq<ExportLease>,
    outcome: Result<ExportLeaseOutcome, PersistenceError>,
) -> bool {
    let id = "lease-"@ + token;
    let unchanged = after == before;
    match current {
        None => unchanged && outcome == Ok::<ExportLeaseOutcome, PersistenceError>(
            ExportLeaseOutcome::Unknown,
        ),
        Some(row) => if !row_whole(row, digest) {
            unchanged && outcome == Err::<ExportLeaseOutcome, PersistenceError>(
                PersistenceError::Storage,
            )
        } else {
            match record_of(row).artifact {
                None => unchanged && outcome == Ok::<ExportLeaseOutcome, PersistenceError>(
                    ExportLeaseOutcome::Unknown,
                ),
                Some(artifact) => if artifact.expires_at <= now {
                    unchanged && outcome == Ok::<ExportLeaseOutcome, PersistenceError>(
                        ExportLeaseOutcome::Expired,
                    )
                } else if now > i64::MAX || lease_known(before, id) {
                    unchanged && outcome == Err::<ExportLeaseOutcome, PersistenceError>(
                        PersistenceError::Storage,
                    )
                } else {
                    &&& outcome is Ok
                    &&& outcome->Ok_0 is Acquired
                    &&& outcome->Ok_0->Acquired_lease_id@ == id
                    &&& outcome->Ok_0->Acquired_artifact == artifact
                    &&& after.len() == before.len() + 1
                    &&& after.drop_last() == before
                    &&& after.last().id@ == id
                    &&& after.last().export_id@ == export_id
                    &&& after.last().created_at == now
                },
            }
        },
    }
}

/// Begins a download: a lease under a new identity, while the artifact is there
/// and has not expired. `digest` is that of the recipe of the row, and `token` a
/// random identity.
pub fn acquire_export_lease(
    current: &Option<ExportRow>,
    digest: &Option<String>,
    leases: &mut Vec<ExportLease>,
    export_id: &String,
    now: u64,
    token: &String,
) -> (outcome: Result<ExportLeaseOutcome, PersistenceError>)
    ensures
        lease_answered(
            *current,
            opt_text(*digest),
            old(leases)@,
            export_id@,
            now,
            token@,
            final(leases)@,
            outcome,
        ),
{
    let row: &ExportRow = match current {
        Some(row) => row,
        None => {
            return Ok(ExportLeaseOutcome::Unknown);
        },
    };
    let record: ExportRecord = match export_record_from_row(row, digest) {
        Ok(record) => record,
        Err(error) => {
            return Err(error);
        },
    };
    let artifact: ExportArtifactFacts = match record.artifact {
        Some(artifact) => artifact,
        None => {
            return Ok(ExportLeaseOutcome::Unknown);
        },
    };
    if artifact.expires_at <= now {
        return Ok(ExportLeaseOutcome::Expired);
    }
    let mut lease_id: String = "lease-".to_owned();
    lease_id.append(token.as_str());
    if now > i64::MAX as u64 || find_lease(leases, &lease_id).is_some() {
        return Err(PersistenceError::Storage);
    }
    let ghost before = leases@;
    leases.push(
        ExportLease { id: lease_id.clone(), export_id: export_id.clone(), created_at: now },
    );
    assert(leases@.drop_last() =~= before);
    Ok(ExportLeaseOutcome::Acquired { lease_id, artifact })
}

/// Whether the leases after a request to end one are what it leaves.
pub open spec fn lease_released(
    before: Seq<ExportLease>,
    lease_id: Seq<char>,
    after: Seq<ExportLease>,
    released: bool,
) -> bool {
    &&& released == lease_known(before, lease_id)
    &&& !released ==> after == before
    &&& released ==> exists|i: int|
        0 <= i < before.len() && (#[trigger] before[i]).id@ == lease_id
            && after == before.remove(i)
}

/// Ends a download. Says whether there was such a lease.
pub fn release_export_lease(leases: &mut Vec<ExportLease>, lease_id: &String) -> (released: bool)
    ensures
        lease_released(old(leases)@, lease_id@, final(leases)@, released),
{
    match find_lease(leases, lease_id) {
        Some(i) => {
            let ghost before = leases@;
            assert(before[i as int].id@ == lease_id@);
            leases.remove(i);
            true
        },
        None => false,
    }
}

/// Whether the leases after a request to renew one are what it leaves.
pub open spec fn lease_renewed(
    before: Seq<ExportLease>,
    lease_id: Seq<char>,
    now: u64,
    after: Seq<ExportLease>,
    renewed: bool,
) -> bool {
    &&& renewed == (lease_known(before, lease_id) && now <= i64::MAX)
    &&& !renewed ==> after == before
    &&& renewed ==> exists|i: int|
        0 <= i < before.len() && (#[trigger] before[i]).id@ == lease_id
            && after == before.update(
            i,
            ExportLease { created_at: now, ..before[i] },
        )
}

/// Renews a lease that a stream still reads under. Says whether there was one.
pub fn renew_export_lease(leases: &mut Vec<ExportLease>, lease_id: &String, now: u64) -> (renewed:
    bool)
    ensures
        lease_renewed(old(leases)@, lease_id@, now, final(leases)@, renewed),
{
    if now > i64::MAX as u64 {
        return false;
    }
    match find_lease(leases, lease_id) {
        Some(i) => {
            let ghost before = leases@;
            assert(before[i as int].id@ == lease_id@);
            let mut lease: ExportLease = clone_lease(&leases[i]);
            lease.created_at = now;
            leases[i] = lease;
            true
        },
        None => false,
    }
}

/// The key that Exports are ordered by: when they were created, then their
/// identities.
pub open spec fn export_key(row: ExportRow) -> KeyView {
    KeyView { rank: row.created_at, texts: seq![row.id@] }
}

/// The keys of a list of Exports.
pub open spec fn export_keys(rows: Seq<ExportRow>) -> Seq<KeyView> {
    Seq::new(rows.len(), |i: int| export_key(rows[i]))
}

/// The Exports, the oldest first.
pub open spec fn oldest_first(rows: Seq<ExportRow>) -> Seq<ExportRow> {
    Seq::new(rows.len(), |i: int| rows[sort_order(export_keys(rows), rows.len())[i]])
}

/// The Exports of a Photo.
pub open spec fn exports_of(rows: Seq<ExportRow>, photo_id: Seq<char>) -> Seq<ExportRow>
    decreases rows.len(),
{
    if rows.len() == 0 {
        Seq::empty()
    } else if rows.last().photo_id@ == photo_id {
        exports_of(rows.drop_last(), photo_id).push(rows.last())
    } else {
        exports_of(rows.drop_last(), photo_id)
    }
}

/// The Exports that are not settled.
pub open spec fn unsettled(rows: Seq<ExportRow>) -> Seq<ExportRow>
    decreases rows.len(),
{
    if rows.len() == 0 {
        Seq::empty()
    } else if rows.last().state == ExportState::Queued || rows.last().state
        == ExportState::Running {
        unsettled(rows.drop_last()).push(rows.last())
    } else {
        unsettled(rows.drop_last())
    }
}

/// The newest Exports first, as many as are listed.
pub open spec fn newest_listed(rows: Seq<ExportRow>) -> Seq<ExportRow> {
    let all = oldest_first(rows).reverse();
    all.take(if all.len() <= EXPORT_LIST_LIMIT {
        all.len() as int
    } else {
        EXPORT_LIST_LIMIT as int
    })
}

fn sort_exports(rows: &Vec<ExportRow>) -> (sorted: Vec<ExportRow>)
    ensures
        sorted@ == oldest_first(rows@),
{
    let ghost all = export_keys(rows@);
    let mut keys: Vec<SortKey> = Vec::new();
    let mut i: usize = 0;
    while i < rows.len()
        invariant
            i <= rows.len(),
            all == export_keys(rows@),
            keys_view(keys@) == all.take(i as int),
        decreases rows.len() - i,
    {
        let key: SortKey = SortKey { rank: rows[i].created_at, texts: vec![rows[i].id.clone()] };
        proof {
            assert(key@.texts =~= export_key(rows@[i as int]).texts);
            assert(keys_view(keys@.push(key)) =~= keys_view(keys@).push(key@));
            assert(all.take(i + 1) =~= all.take(i as int).push(all[i as int]));
        }
        keys.push(key);
        i = i + 1;
    }
    assert(all.take(all.len() as int) =~= all);
    assert(keys.len() == keys_view(keys@).len());
    let order: Vec<usize> = sorted_rows(&keys);
    let ghost goal = oldest_first(rows@);
    let mut sorted: Vec<ExportRow> = Vec::new();
    let mut j: usize = 0;
    while j < order.len()
        invariant
            j <= order.len(),
            order.len() == rows.len(),
            goal == oldest_first(rows@),
            rows_view(order@) == sort_order(export_keys(rows@), rows@.len()),
            forall|k: int| 0 <= k < order.len() ==> (#[trigger] order@[k]) < rows.len(),
            sorted@ == goal.take(j as int),
        decreases order.len() - j,
    {
        let row: ExportRow = clone_export_row(&rows[order[j]]);
        proof {
            assert(rows_view(order@)[j as int] == order@[j as int]);
            assert(row == goal[j as int]);
            assert(goal.take(j + 1) =~= goal.take(j as int).push(goal[j as int]));
        }
        sorted.push(row);
        j = j + 1;
    }
    assert(goal.take(goal.len() as int) =~= goal);
    sorted
}

/// The exports of a Photo, the newest first, as many as are listed; none of an
/// unknown Photo.
pub fn list_photo_exports(known: bool, rows: &Vec<ExportRow>, photo_id: &String) -> (list: Option<
    Vec<ExportRow>,
>)
    ensures
        list is Some == known,
        known ==> list->0@ == newest_listed(exports_of(rows@, photo_id@)),
{
    if !known {
        return None;
    }
    let mut own: Vec<ExportRow> = Vec::new();
    let mut i: usize = 0;
    assert(rows@.take(0) =~= Seq::<ExportRow>::empty());
    while i < rows.len()
        invariant
            i <= rows.len(),
            own@ == exports_of(rows@.take(i as int), photo_id@),
        decreases rows.len() - i,
    {
        proof {
            assert(rows@.take(i + 1).drop_last() =~= rows@.take(i as int));
            assert(rows@.take(i + 1).last() == rows@[i as int]);
        }
        if same_text(&rows[i].photo_id, photo_id) {
            own.push(clone_export_row(&rows[i]));
        }
        i = i + 1;
    }
    assert(rows@.take(rows@.len() as int) =~= rows@);
    let sorted: Vec<ExportRow> = sort_exports(&own);
    let ghost all = sorted@.reverse();
    let goal: usize = if sorted.len() <= EXPORT_LIST_LIMIT {
        sorted.len()
    } else {
        EXPORT_LIST_LIMIT
    };
    let mut list: Vec<ExportRow> = Vec::new();
    let mut k: usize = 0;
    while k < goal
        invariant
            k <= goal <= sorted.len(),
            all == sorted@.reverse(),
            list@ == all.take(k as int),
        decreases goal - k,
    {
        list.push(clone_export_row(&sorted[sorted.len() - 1 - k]));
        assert(all.take(k + 1) =~= all.take(k as int).push(all[k as int]));
        k = k + 1;
    }
    Some(list)
}

/// The Exports that are not settled, the oldest first.
pub fn unfinished_exports(rows: &Vec<ExportRow>) -> (list: Vec<ExportRow>)
    ensures
        list@ == oldest_first(unsettled(rows@)),
{
    let mut own: Vec<ExportRow> = Vec::new();
    let mut i: usize = 0;
    assert(rows@.take(0) =~= Seq::<ExportRow>::empty());
    while i < rows.len()
        invariant
            i <= rows.len(),
            own@ == unsettled(rows@.take(i as int)),
        decreases rows.len() - i,
    {
        proof {
            assert(rows@.take(i + 1).drop_last() =~= rows@.take(i as int));
            assert(rows@.take(i + 1).last() == rows@[i as int]);
        }
        if rows[i].state == ExportState::Queued || rows[i].state == ExportState::Running {
            own.push(clone_export_row(&rows[i]));
        }
        i = i + 1;
    }
    assert(rows@.take(rows@.len() as int) =~= rows@);
    sort_exports(&own)
}

proof fn lemma_exports_of(rows: Seq<ExportRow>, photo_id: Seq<char>)
    ensures
        forall|i: int|
            0 <= i < exports_of(rows, photo_id).len() ==> (#[trigger] exports_of(
                rows,
                photo_id,
            )[i]).photo_id@ == photo_id,
    decreases rows.len(),
{
    if rows.len() > 0 {
        lemma_exports_of(rows.drop_last(), photo_id);
    }
}

/// The list of a Photo's Exports is bounded and holds its own alone, a later one
/// before an earlier one.
pub proof fn law_newest_exports_come_first(rows: Seq<ExportRow>, photo_id: Seq<char>)
    ensures
        ({
            let own = exports_of(rows, photo_id);
            let listed = newest_listed(own);
            &&& listed.len() == (if own.len() <= EXPORT_LIST_LIMIT {
                own.len()
            } else {
                EXPORT_LIST_LIMIT as nat
            })
            &&& forall|i: int|
                0 <= i < listed.len() ==> (#[trigger] listed[i]).photo_id@ == photo_id
            &&& forall|i: int, j: int|
                0 <= i < j < listed.len() ==> (#[trigger] listed[i]).created_at >= (
                #[trigger] listed[j]).created_at
        }),
{
    let own = exports_of(rows, photo_id);
    let listed = newest_listed(own);
    let keys = export_keys(own);
    let order = sort_order(keys, own.len());
    let n = own.len() as int;
    lemma_exports_of(rows, photo_id);
    law_sorting_orders_every_row(keys, own.len());
    assert forall|i: int| 0 <= i < listed.len() implies listed[i] == own[order[n - 1 - i]] by {
        assert(0 <= order[n - 1 - i] < n);
    }
    assert forall|i: int| 0 <= i < listed.len() implies (#[trigger] listed[i]).photo_id@
        == photo_id by {
        assert(0 <= order[n - 1 - i] < n);
    }
    assert forall|i: int, j: int| 0 <= i < j < listed.len() implies (
    #[trigger] listed[i]).created_at >= (#[trigger] listed[j]).created_at by {
        let a = order[n - 1 - i];
        let b = order[n - 1 - j];
        assert(keys[a] == export_key(own[a]));
        assert(keys[b] == export_key(own[b]));
        assert(!key_less(keys[a], keys[b]));
    }
}

/// The bytes that Exports hold reserved add up: an Export that is not finished holds the
/// largest artifact, one that succeeded holds the artifact that it has for as long as it
/// is leased or has not expired, and every other one holds nothing.
pub proof fn law_reserved_bytes_add_up(
    holds: Seq<ExportHold>,
    hold: ExportHold,
    leases: Seq<ExportLease>,
    now: u64,
)
    requires
        now <= i64::MAX,
    ensures
        reserved(Seq::<ExportHold>::empty(), leases, now) == 0,
        ({
            let more = reserved(holds.push(hold), leases, now) - reserved(holds, leases, now);
            let downloaded = exists|l: int|
                0 <= l < leases.len() && (#[trigger] leases[l]).export_id@ == hold.id@;
            let fresh = hold.artifact_expires_at is Some && hold.artifact_expires_at->0 > now;
            &&& hold.state == ExportState::Queued || hold.state == ExportState::Running ==> more
                == 2_147_483_648
            &&& hold.state == ExportState::Failed || hold.state == ExportState::Cancelled ==> more
                == 0
            &&& hold.state == ExportState::Succeeded && !downloaded && !fresh ==> more == 0
            &&& hold.state == ExportState::Succeeded && (downloaded || fresh) ==> more == (
            if hold.artifact_size is Some {
                hold.artifact_size->0 as int
            } else {
                0
            })
        }),
{
    let all = holds.push(hold);
    assert(all.drop_last() =~= holds);
    assert(all.last() == hold);
}

/// What an Export holds reserved is told by its state and its artifact as stored.
pub proof fn law_holds_are_what_is_stored(row: ExportRow)
    ensures
        hold_of(row).id@ == row.id@,
        hold_of(row).state == row.state,
        hold_of(row).artifact_size == row.artifact_size,
        hold_of(row).artifact_expires_at == row.artifact_expires_at,
{
}

proof fn lemma_live_leases(leases: Seq<ExportLease>, now: u64, lease: ExportLease)
    ensures
        live_leases(leases, now).contains(lease) <==> leases.contains(lease) && !stale_lease(
            lease,
            now,
        ),
    decreases leases.len(),
{
    if leases.len() > 0 {
        let front = leases.drop_last();
        lemma_live_leases(front, now, lease);
        let before = live_leases(front, now);
        let after = live_leases(leases, now);
        if leases.contains(lease) && !stale_lease(lease, now) {
            let i = choose|i: int| 0 <= i < leases.len() && leases[i] == lease;
            if i < front.len() {
                assert(front[i] == lease);
                let k = choose|k: int| 0 <= k < before.len() && before[k] == lease;
                assert(after[k] == lease);
            } else {
                assert(after[after.len() - 1] == lease);
            }
        }
        if after.contains(lease) {
            let k = choose|k: int| 0 <= k < after.len() && after[k] == lease;
            if k < before.len() {
                assert(before[k] == lease);
                assert(front.contains(lease));
                let i = choose|i: int| 0 <= i < front.len() && front[i] == lease;
                assert(leases[i] == lease);
            } else {
                assert(leases[leases.len() - 1] == lease);
            }
        }
    }
}

/// A sweep drops the leases that were not renewed for a day, and keeps the others.
pub proof fn law_sweeps_drop_stale_leases(leases: Seq<ExportLease>, now: u64, i: int)
    requires
        0 <= i < leases.len(),
        now <= i64::MAX,
    ensures
        live_leases(leases, now).contains(leases[i]) <==> leases[i].created_at + 86_400 >= now,
        forall|lease: ExportLease| #[trigger]
            live_leases(leases, now).contains(lease) ==> leases.contains(lease),
{
    lemma_live_leases(leases, now, leases[i]);
    assert(leases.contains(leases[i]));
    assert forall|lease: ExportLease| #[trigger]
        live_leases(leases, now).contains(lease) implies leases.contains(lease) by {
        lemma_live_leases(leases, now, lease);
    }
}

proof fn lemma_kept_from(rows: Seq<ExportRow>, leases: Seq<ExportLease>, now: u64, k: int)
    requires
        0 <= k < kept_rows(rows, leases, now).len(),
    ensures
        exists|i: int|
            0 <= i < rows.len() && !record_expired(#[trigger] rows[i], leases, now) && kept_rows(
                rows,
                leases,
                now,
            )[k] == swept_row(rows[i], leases, now),
    decreases rows.len(),
{
    let front = rows.drop_last();
    let before = kept_rows(front, leases, now);
    let after = kept_rows(rows, leases, now);
    if k < before.len() {
        lemma_kept_from(front, leases, now, k);
        let i = choose|i: int|
            0 <= i < front.len() && !record_expired(#[trigger] front[i], leases, now) && before[k]
                == swept_row(front[i], leases, now);
        assert(rows[i] == front[i]);
        assert(after[k] == before[k]);
    } else {
        assert(!record_expired(rows[rows.len() - 1], leases, now));
    }
}

proof fn lemma_kept(rows: Seq<ExportRow>, leases: Seq<ExportLease>, now: u64, i: int)
    requires
        0 <= i < rows.len(),
    ensures
        !record_expired(rows[i], leases, now) ==> kept_rows(rows, leases, now).contains(
            swept_row(rows[i], leases, now),
        ),
        artifact_expired(rows[i], leases, now) ==> expired_artifacts(rows, leases, now).contains(
            rows[i].id@,
        ),
        record_expired(rows[i], leases, now) ==> expired_records(rows, leases, now).contains(
            rows[i].id@,
        ),
    decreases rows.len(),
{
    let front = rows.drop_last();
    if i < front.len() {
        lemma_kept(front, leases, now, i);
        assert(front[i] == rows[i]);
        let before = kept_rows(front, leases, now);
        let after = kept_rows(rows, leases, now);
        if !record_expired(rows[i], leases, now) {
            let row = swept_row(rows[i], leases, now);
            let k = choose|k: int| 0 <= k < before.len() && before[k] == row;
            assert(after[k] == row);
        }
        let named = expired_artifacts(front, leases, now);
        if artifact_expired(rows[i], leases, now) {
            let k = choose|k: int| 0 <= k < named.len() && named[k] == rows[i].id@;
            assert(expired_artifacts(rows, leases, now)[k] == rows[i].id@);
        }
        let gone = expired_records(front, leases, now);
        if record_expired(rows[i], leases, now) {
            let k = choose|k: int| 0 <= k < gone.len() && gone[k] == rows[i].id@;
            assert(expired_records(rows, leases, now)[k] == rows[i].id@);
        }
    } else {
        let after = kept_rows(rows, leases, now);
        if !record_expired(rows[i], leases, now) {
            assert(after[after.len() - 1] == swept_row(rows[i], leases, now));
        }
        let named = expired_artifacts(rows, leases, now);
        if artifact_expired(rows[i], leases, now) {
            assert(named[named.len() - 1] == rows[i].id@);
        }
        let gone = expired_records(rows, leases, now);
        if record_expired(rows[i], leases, now) {
            assert(gone[gone.len() - 1] == rows[i].id@);
        }
    }
}

proof fn lemma_expired_from(rows: Seq<ExportRow>, leases: Seq<ExportLease>, now: u64, k: int)
    ensures
        0 <= k < expired_artifacts(rows, leases, now).len() ==> exists|i: int|
            0 <= i < rows.len() && artifact_expired(#[trigger] rows[i], leases, now) && rows[i].id@
                == expired_artifacts(rows, leases, now)[k],
        0 <= k < expired_records(rows, leases, now).len() ==> exists|i: int|
            0 <= i < rows.len() && record_expired(#[trigger] rows[i], leases, now) && rows[i].id@
                == expired_records(rows, leases, now)[k],
    decreases rows.len(),
{
    if rows.len() > 0 {
        let front = rows.drop_last();
        lemma_expired_from(front, leases, now, k);
        let named = expired_artifacts(rows, leases, now);
        let named_before = expired_artifacts(front, leases, now);
        if 0 <= k < named_before.len() {
            let i = choose|i: int|
                0 <= i < front.len() && artifact_expired(#[trigger] front[i], leases, now)
                    && front[i].id@ == named_before[k];
            assert(rows[i] == front[i]);
            assert(named[k] == named_before[k]);
        } else if 0 <= k < named.len() {
            assert(artifact_expired(rows[rows.len() - 1], leases, now));
        }
        let gone = expired_records(rows, leases, now);
        let gone_before = expired_records(front, leases, now);
        if 0 <= k < gone_before.len() {
            let i = choose|i: int|
                0 <= i < front.len() && record_expired(#[trigger] front[i], leases, now)
                    && front[i].id@ == gone_before[k];
            assert(rows[i] == front[i]);
            assert(gone[k] == gone_before[k]);
        } else if 0 <= k < gone.len() {
            assert(record_expired(rows[rows.len() - 1], leases, now));
        }
    }
}

/// A sweep gives up each Export whose time to be kept is over and that nobody downloads,
/// and names it. It takes the artifact from each Export that succeeded and whose
/// artifact's time is over, unless somebody downloads it, and names it too. Everything
/// else of the Exports stays as it was.
pub proof fn law_sweeps_end_what_is_over(
    rows: Seq<ExportRow>,
    leases: Seq<ExportLease>,
    now: u64,
    i: int,
)
    requires
        0 <= i < rows.len(),
        now <= i64::MAX,
    ensures
        ({
            let row = rows[i];
            let downloaded = exists|l: int|
                0 <= l < leases.len() && (#[trigger] leases[l]).export_id@ == row.id@;
            let over = row.retain_until is Some && row.retain_until->0 <= now && !downloaded;
            let stale = row.state == ExportState::Succeeded && row.artifact_expires_at is Some
                && row.artifact_expires_at->0 <= now && !downloaded;
            let kept = kept_rows(rows, leases, now);
            &&& over ==> expired_records(rows, leases, now).contains(row.id@)
            &&& stale ==> expired_artifacts(rows, leases, now).contains(row.id@)
            &&& !over && !stale ==> kept.contains(row)
            &&& !over && stale ==> exists|k: int|
                0 <= k < kept.len() && {
                    let next = #[trigger] kept[k];
                    &&& next.id@ == row.id@
                    &&& next.state == row.state
                    &&& next.artifact_size is None
                    &&& next.artifact_sha256 is None
                    &&& next.artifact_expires_at is None
                    &&& next.artifact_width == row.artifact_width
                    &&& next.artifact_height == row.artifact_height
                    &&& next.artifact_profile_identity == row.artifact_profile_identity
                    &&& next.photo_id@ == row.photo_id@
                    &&& next.outcome == row.outcome
                    &&& next.created_at == row.created_at
                    &&& next.settled_at == row.settled_at
                    &&& next.retain_until == row.retain_until
                }
        }),
        forall|k: int|
            0 <= k < kept_rows(rows, leases, now).len() ==> exists|j: int|
                0 <= j < rows.len() && (#[trigger] rows[j]).id@ == (
                #[trigger] kept_rows(rows, leases, now)[k]).id@ && rows[j].state == kept_rows(
                    rows,
                    leases,
                    now,
                )[k].state,
{
    let row = rows[i];
    lemma_kept(rows, leases, now, i);
    let kept = kept_rows(rows, leases, now);
    if !record_expired(row, leases, now) {
        let k = choose|k: int|
            0 <= k < kept.len() && kept[k] == swept_row(row, leases, now);
        assert(kept[k] == swept_row(row, leases, now));
    }
    assert forall|k: int| 0 <= k < kept.len() implies exists|j: int|
        0 <= j < rows.len() && (#[trigger] rows[j]).id@ == (#[trigger] kept[k]).id@
            && rows[j].state == kept[k].state by {
        lemma_kept_from(rows, leases, now, k);
        let j = choose|j: int|
            0 <= j < rows.len() && !record_expired(#[trigger] rows[j], leases, now) && kept[k]
                == swept_row(rows[j], leases, now);
        assert(rows[j].id@ == kept[k].id@);
    }
}

/// A sweep names no Export whose time is not over.
pub proof fn law_sweeps_name_what_is_over(
    rows: Seq<ExportRow>,
    leases: Seq<ExportLease>,
    now: u64,
    k: int,
)
    requires
        now <= i64::MAX,
    ensures
        0 <= k < expired_records(rows, leases, now).len() ==> exists|i: int|
            0 <= i < rows.len() && (#[trigger] rows[i]).id@ == expired_records(rows, leases, now)[k]
                && rows[i].retain_until is Some && rows[i].retain_until->0 <= now,
        0 <= k < expired_artifacts(rows, leases, now).len() ==> exists|i: int|
            0 <= i < rows.len() && (#[trigger] rows[i]).id@ == expired_artifacts(
                rows,
                leases,
                now,
            )[k] && rows[i].state == ExportState::Succeeded && rows[i].artifact_expires_at is Some
                && rows[i].artifact_expires_at->0 <= now,
{
    lemma_expired_from(rows, leases, now, k);
    if 0 <= k < expired_records(rows, leases, now).len() {
        let i = choose|i: int|
            0 <= i < rows.len() && record_expired(#[trigger] rows[i], leases, now) && rows[i].id@
                == expired_records(rows, leases, now)[k];
        assert(rows[i].id@ == expired_records(rows, leases, now)[k]);
    }
    if 0 <= k < expired_artifacts(rows, leases, now).len() {
        let i = choose|i: int|
            0 <= i < rows.len() && artifact_expired(#[trigger] rows[i], leases, now) && rows[i].id@
                == expired_artifacts(rows, leases, now)[k];
        assert(rows[i].id@ == expired_artifacts(rows, leases, now)[k]);
    }
}

/// A download is granted only on an artifact that is there and has not expired; it tells
/// the artifact as stored, and one lease more stands for it. A download that is not
/// granted leaves the leases as they were.
pub proof fn law_leases_are_granted_on_artifacts(
    current: Option<ExportRow>,
    digest: Option<Seq<char>>,
    before: Seq<ExportLease>,
    export_id: Seq<char>,
    now: u64,
    token: Seq<char>,
    after: Seq<ExportLease>,
    outcome: Result<ExportLeaseOutcome, PersistenceError>,
)
    requires
        lease_answered(current, digest, before, export_id, now, token, after, outcome),
    ensures
        ({
            let row = current->0;
            let granted = outcome is Ok && outcome->Ok_0 is Acquired;
            &&& granted ==> {
                let artifact = outcome->Ok_0->Acquired_artifact;
                &&& current is Some
                &&& row.artifact_size == Some(artifact.size)
                &&& row.artifact_sha256 is Some
                &&& row.artifact_sha256->0@ == artifact.sha256@
                &&& row.artifact_expires_at == Some(artifact.expires_at)
                &&& row.artifact_width == Some(artifact.width)
                &&& row.artifact_height == Some(artifact.height)
                &&& row.artifact_profile_identity is Some
                &&& row.artifact_profile_identity->0@ == artifact.profile_identity@
                &&& artifact.expires_at > now
                &&& outcome->Ok_0->Acquired_lease_id@ == "lease-"@ + token
                &&& after.len() == before.len() + 1
                &&& forall|l: int| 0 <= l < before.len() ==> #[trigger] after[l] == before[l]
                &&& after[before.len() as int].id@ == "lease-"@ + token
                &&& after[before.len() as int].export_id@ == export_id
                &&& after[before.len() as int].created_at == now
                &&& forall|l: int|
                    0 <= l < before.len() ==> (#[trigger] before[l]).id@ != "lease-"@ + token
            }
            &&& !granted ==> after == before
            &&& current is None ==> outcome == Ok::<ExportLeaseOutcome, PersistenceError>(
                ExportLeaseOutcome::Unknown,
            )
            &&& current is Some && row_whole(row, digest) && row.artifact_size is None ==> outcome
                == Ok::<ExportLeaseOutcome, PersistenceError>(ExportLeaseOutcome::Unknown)
            &&& current is Some && row_whole(row, digest) && row.artifact_size is Some
                && row.artifact_expires_at->0 <= now ==> outcome == Ok::<
                ExportLeaseOutcome,
                PersistenceError,
            >(ExportLeaseOutcome::Expired)
            &&& current is Some && row_whole(row, digest) && row.artifact_size is Some
                && row.artifact_expires_at->0 > now && now <= i64::MAX && (forall|l: int|
                0 <= l < before.len() ==> (#[trigger] before[l]).id@ != "lease-"@ + token)
                ==> granted
        }),
{
    if outcome is Ok && outcome->Ok_0 is Acquired {
        assert forall|l: int| 0 <= l < before.len() implies #[trigger] after[l] == before[l] by {
            assert(after.drop_last()[l] == after[l]);
        }
    }
}

/// Ending a lease takes it from the leases, and renewing one moves its time; the other
/// leases stay. A lease that is not there is neither ended nor renewed.
pub proof fn law_leases_end_and_are_renewed(
    before: Seq<ExportLease>,
    lease_id: Seq<char>,
    now: u64,
    after: Seq<ExportLease>,
    done: bool,
    l: int,
)
    requires
        0 <= l < before.len(),
        forall|i: int, j: int|
            0 <= i < j < before.len() ==> (#[trigger] before[i]).id@ != (#[trigger] before[j]).id@,
    ensures
        lease_released(before, lease_id, after, done) ==> {
            &&& before[l].id@ == lease_id ==> done && after.len() == before.len() - 1
            &&& before[l].id@ != lease_id ==> after.contains(before[l])
            &&& forall|k: int| 0 <= k < after.len() ==> (#[trigger] after[k]).id@ != lease_id
            &&& !done ==> after == before
        },
        lease_renewed(before, lease_id, now, after, done) && now <= i64::MAX ==> {
            &&& after.len() == before.len()
            &&& after[l].id@ == before[l].id@
            &&& after[l].export_id@ == before[l].export_id@
            &&& before[l].id@ == lease_id ==> done && after[l].created_at == now
            &&& before[l].id@ != lease_id ==> after[l] == before[l]
            &&& !done ==> after == before
        },
{
    if lease_released(before, lease_id, after, done) {
        if before[l].id@ == lease_id {
            assert(lease_known(before, lease_id));
        }
        if done {
            let i = choose|i: int|
                0 <= i < before.len() && (#[trigger] before[i]).id@ == lease_id && after
                    == before.remove(i);
            if l != i {
                let k = if l < i {
                    l
                } else {
                    l - 1
                };
                assert(after[k] == before[l]);
            }
            assert forall|k: int| 0 <= k < after.len() implies (#[trigger] after[k]).id@
                != lease_id by {
                let j = if k < i {
                    k
                } else {
                    k + 1
                };
                assert(after[k] == before[j]);
            }
        } else {
            assert(after[l] == before[l]);
            assert forall|k: int| 0 <= k < after.len() implies (#[trigger] after[k]).id@
                != lease_id by {
                assert(before[k].id@ != lease_id);
            }
        }
    }
    if lease_renewed(before, lease_id, now, after, done) && now <= i64::MAX {
        if before[l].id@ == lease_id {
            assert(lease_known(before, lease_id));
        }
    }
}

proof fn lemma_own_exports(rows: Seq<ExportRow>, photo_id: Seq<char>, row: ExportRow)
    ensures
        exports_of(rows, photo_id).contains(row) <==> rows.contains(row) && row.photo_id@
            == photo_id,
        unsettled(rows).contains(row) <==> rows.contains(row) && (row.state == ExportState::Queued
            || row.state == ExportState::Running),
    decreases rows.len(),
{
    if rows.len() > 0 {
        let front = rows.drop_last();
        lemma_own_exports(front, photo_id, row);
        assert(rows =~= front.push(rows.last()));
        assert(rows.contains(row) <==> front.contains(row) || rows.last() == row) by {
            if front.contains(row) {
                let i = choose|i: int| 0 <= i < front.len() && front[i] == row;
                assert(rows[i] == row);
            }
            if rows.last() == row {
                assert(rows[rows.len() - 1] == row);
            }
            if rows.contains(row) {
                let i = choose|i: int| 0 <= i < rows.len() && rows[i] == row;
                if i < front.len() {
                    assert(front[i] == row);
                }
            }
        }
        let own = exports_of(front, photo_id);
        assert(own.push(rows.last()).contains(row) <==> own.contains(row) || rows.last() == row) by {
            lemma_pushed(own, rows.last(), row);
        }
        let open = unsettled(front);
        assert(open.push(rows.last()).contains(row) <==> open.contains(row) || rows.last()
            == row) by {
            lemma_pushed(open, rows.last(), row);
        }
    }
}

proof fn lemma_pushed(list: Seq<ExportRow>, last: ExportRow, row: ExportRow)
    ensures
        list.push(last).contains(row) <==> list.contains(row) || last == row,
{
    let all = list.push(last);
    if list.contains(row) {
        let i = choose|i: int| 0 <= i < list.len() && list[i] == row;
        assert(all[i] == row);
    }
    if last == row {
        assert(all[list.len() as int] == row);
    }
    if all.contains(row) {
        let i = choose|i: int| 0 <= i < all.len() && all[i] == row;
        if i < list.len() {
            assert(list[i] == row);
        }
    }
}

proof fn lemma_oldest_first(rows: Seq<ExportRow>)
    ensures
        oldest_first(rows).len() == rows.len(),
        forall|row: ExportRow| #[trigger] oldest_first(rows).contains(row) <==> rows.contains(row),
        forall|i: int, j: int|
            0 <= i < j < rows.len() ==> (#[trigger] oldest_first(rows)[i]).created_at <= (
            #[trigger] oldest_first(rows)[j]).created_at,
{
    let keys = export_keys(rows);
    let order = sort_order(keys, rows.len());
    law_sorting_orders_every_row(keys, rows.len());
    let sorted = oldest_first(rows);
    assert forall|row: ExportRow| #[trigger] sorted.contains(row) <==> rows.contains(row) by {
        if sorted.contains(row) {
            let i = choose|i: int| 0 <= i < sorted.len() && sorted[i] == row;
            assert(rows[order[i]] == row);
        }
        if rows.contains(row) {
            let i = choose|i: int| 0 <= i < rows.len() && rows[i] == row;
            assert(order.contains(i));
            let k = choose|k: int| 0 <= k < order.len() && order[k] == i;
            assert(sorted[k] == row);
        }
    }
    assert forall|i: int, j: int| 0 <= i < j < rows.len() implies (
    #[trigger] sorted[i]).created_at <= (#[trigger] sorted[j]).created_at by {
        let a = order[i];
        let b = order[j];
        assert(keys[a] == export_key(rows[a]));
        assert(keys[b] == export_key(rows[b]));
        assert(!key_less(keys[b], keys[a]));
    }
}

/// The Exports that are not finished are told, every one and no other, the oldest first.
pub proof fn law_unfinished_exports_are_told(rows: Seq<ExportRow>, row: ExportRow)
    ensures
        oldest_first(unsettled(rows)).contains(row) <==> rows.contains(row) && (row.state
            == ExportState::Queued || row.state == ExportState::Running),
        forall|i: int, j: int|
            0 <= i < j < oldest_first(unsettled(rows)).len() ==> (
            #[trigger] oldest_first(unsettled(rows))[i]).created_at <= (
            #[trigger] oldest_first(unsettled(rows))[j]).created_at,
{
    lemma_own_exports(rows, Seq::empty(), row);
    lemma_oldest_first(unsettled(rows));
}

/// The Exports of a Photo are told, the newest first; those that are left out of a list
/// of sixty are no newer than any that is told.
pub proof fn law_exports_of_a_photo_are_told(rows: Seq<ExportRow>, photo_id: Seq<char>, row: ExportRow)
    requires
        rows.contains(row),
        row.photo_id@ == photo_id,
    ensures
        ({
            let listed = newest_listed(exports_of(rows, photo_id));
            &&& listed.len() <= 60
            &&& listed.contains(row) || (listed.len() == 60 && forall|i: int|
                0 <= i < 60 ==> (#[trigger] listed[i]).created_at >= row.created_at)
            &&& forall|i: int|
                0 <= i < listed.len() ==> rows.contains(#[trigger] listed[i]) && listed[i].photo_id@
                    == photo_id
        }),
{
    let own = exports_of(rows, photo_id);
    lemma_own_exports(rows, photo_id, row);
    lemma_oldest_first(own);
    let sorted = oldest_first(own);
    let listed = newest_listed(own);
    let n = own.len() as int;
    assert(sorted.contains(row));
    let k = choose|k: int| 0 <= k < sorted.len() && sorted[k] == row;
    assert forall|i: int| 0 <= i < listed.len() implies rows.contains(#[trigger] listed[i])
        && listed[i].photo_id@ == photo_id by {
        assert(listed[i] == sorted[n - 1 - i]);
        assert(sorted.contains(listed[i]));
        lemma_own_exports(rows, photo_id, listed[i]);
    }
    let at = n - 1 - k;
    if at < listed.len() {
        assert(listed[at] == sorted[k]);
    } else {
        assert forall|i: int| 0 <= i < 60 implies (#[trigger] listed[i]).created_at
            >= row.created_at by {
            assert(listed[i] == sorted[n - 1 - i]);
        }
    }
}

/// Times are stored without loss: two of them that are stored alike are the same, and
/// one that a signed number holds is stored as it stands.
pub proof fn law_times_are_stored_without_loss(left: u64, right: u64, a: i64, b: i64)
    requires
        call_ensures(time_to_store, (left,), a),
        call_ensures(time_to_store, (right,), b),
    ensures
        a == b ==> left == right,
        left <= 0x7fff_ffff_ffff_ffff ==> a == left,
        left > 0x7fff_ffff_ffff_ffff ==> a < 0,
        left > 0x7fff_ffff_ffff_ffff && right > 0x7fff_ffff_ffff_ffff ==> a - b == left - right,
        left == u64::MAX ==> a == -1,
{
}

/// Exports of one time are told by identity: the last one first where the newest come
/// first, and the first one first where the oldest do.
pub proof fn law_exports_of_one_time_stand_by_identity(
    rows: Seq<ExportRow>,
    photo_id: Seq<char>,
    i: int,
    j: int,
)
    requires
        0 <= i < j,
    ensures
        ({
            let listed = newest_listed(exports_of(rows, photo_id));
            j < listed.len() && listed[i].created_at == listed[j].created_at ==> !text_less(
                listed[i].id@,
                listed[j].id@,
            )
        }),
        ({
            let queued = oldest_first(unsettled(rows));
            j < queued.len() && queued[i].created_at == queued[j].created_at ==> !text_less(
                queued[j].id@,
                queued[i].id@,
            )
        }),
{
    let own = exports_of(rows, photo_id);
    let n = own.len() as int;
    let keys = export_keys(own);
    let order = sort_order(keys, own.len());
    law_sorting_orders_every_row(keys, own.len());
    let listed = newest_listed(own);
    if j < listed.len() && listed[i].created_at == listed[j].created_at {
        let a = order[n - 1 - i];
        let b = order[n - 1 - j];
        assert(listed[i] == own[a]);
        assert(listed[j] == own[b]);
        assert(keys[a] == export_key(own[a]));
        assert(keys[b] == export_key(own[b]));
        assert(!key_less(keys[a], keys[b]));
        law_keys_of_one_rank_stand_by_text(keys[a], keys[b]);
    }
    let open = unsettled(rows);
    let open_keys = export_keys(open);
    let open_order = sort_order(open_keys, open.len());
    law_sorting_orders_every_row(open_keys, open.len());
    let queued = oldest_first(open);
    if j < queued.len() && queued[i].created_at == queued[j].created_at {
        let a = open_order[i];
        let b = open_order[j];
        assert(queued[i] == open[a]);
        assert(queued[j] == open[b]);
        assert(open_keys[a] == export_key(open[a]));
        assert(open_keys[b] == export_key(open[b]));
        assert(!key_less(open_keys[b], open_keys[a]));
        law_keys_of_one_rank_stand_by_text(open_keys[b], open_keys[a]);
    }
}

} // verus!
