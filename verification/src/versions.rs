//! Version tokens: opaque texts by which a caller proves which state of a Photo
//! or an Album it has seen.
use crate::error::MutationError;
use crate::numeral::{decimal, decimal_text, is_digit, law_decimal_injective, law_decimal_reads_back};
use vstd::hash_map::StringHashMap;
use vstd::prelude::*;
use vstd::string::*;

verus! {

/// How often each Photo and each Album changed since the owner started. An
/// identity without an entry has not changed.
pub struct MutationVersions {
    pub epoch: String,
    pub photo: StringHashMap<u64>,
    pub album: StringHashMap<u64>,
}

/// The count that a map of counters holds for an identity.
pub open spec fn count_of(counters: Map<Seq<char>, u64>, id: Seq<char>) -> u64 {
    if counters.contains_key(id) {
        counters[id]
    } else {
        0
    }
}

/// The token of one count of one identity in one epoch.
pub open spec fn token_text(
    epoch: Seq<char>,
    kind: Seq<char>,
    id: Seq<char>,
    counter: nat,
) -> Seq<char> {
    epoch + seq![':'] + kind + seq![':'] + id + seq![':'] + decimal(counter)
}

impl MutationVersions {
    /// The token of a Photo's current version.
    pub open spec fn photo_token(&self, id: Seq<char>) -> Seq<char> {
        token_text(self.epoch@, "photo"@, id, count_of(self.photo@, id) as nat)
    }

    /// The token of an Album's current version.
    pub open spec fn album_token(&self, id: Seq<char>) -> Seq<char> {
        token_text(self.epoch@, "album"@, id, count_of(self.album@, id) as nat)
    }

    /// Versions of a new process epoch, in which nothing has changed yet.
    pub fn new(epoch: String) -> (versions: Self)
        ensures
            versions.epoch == epoch,
            versions.photo@ == Map::<Seq<char>, u64>::empty(),
            versions.album@ == Map::<Seq<char>, u64>::empty(),
    {
        MutationVersions { epoch, photo: StringHashMap::new(), album: StringHashMap::new() }
    }

    /// The token of a Photo's current version.
    pub fn photo(&self, id: &str) -> (token: String)
        ensures
            token@ == self.photo_token(id@),
    {
        let counter: u64 = read_counter(&self.photo, id);
        self.token("photo", id, counter)
    }

    /// The token of an Album's current version.
    pub fn album(&self, id: &str) -> (token: String)
        ensures
            token@ == self.album_token(id@),
    {
        let counter: u64 = read_counter(&self.album, id);
        self.token("album", id, counter)
    }

    /// The token that an Album has after a change, or still has without one.
    pub fn album_after(&self, id: &str, advance: bool) -> (token: String)
        requires
            advance ==> count_of(self.album@, id@) < u64::MAX,
        ensures
            token@ == token_text(
                self.epoch@,
                "album"@,
                id@,
                (count_of(self.album@, id@) + if advance {
                    1int
                } else {
                    0int
                }) as nat,
            ),
    {
        let counter: u64 = read_counter(&self.album, id);
        if advance {
            self.token("album", id, counter + 1)
        } else {
            self.token("album", id, counter)
        }
    }

    /// The token that a Photo has after a change, or still has without one.
    pub fn photo_after(&self, id: &str, advance: bool) -> (token: String)
        requires
            advance ==> count_of(self.photo@, id@) < u64::MAX,
        ensures
            token@ == token_text(
                self.epoch@,
                "photo"@,
                id@,
                (count_of(self.photo@, id@) + if advance {
                    1int
                } else {
                    0int
                }) as nat,
            ),
    {
        let counter: u64 = read_counter(&self.photo, id);
        if advance {
            self.token("photo", id, counter + 1)
        } else {
            self.token("photo", id, counter)
        }
    }

    /// Whether a Photo's counter can still grow.
    pub fn can_advance_photo(&self, id: &str) -> (can: bool)
        ensures
            can == (count_of(self.photo@, id@) < u64::MAX),
    {
        read_counter(&self.photo, id) < u64::MAX
    }

    /// Whether an Album's counter can still grow.
    pub fn can_advance_album(&self, id: &str) -> (can: bool)
        ensures
            can == (count_of(self.album@, id@) < u64::MAX),
    {
        read_counter(&self.album, id) < u64::MAX
    }

    /// Counts one change of a Photo.
    pub fn advance_photo(&mut self, id: &str) -> (result: Result<(), MutationError>)
        ensures
            final(self).epoch == old(self).epoch,
            final(self).album == old(self).album,
            advanced(old(self).photo@, final(self).photo@, id@, result),
    {
        advance_counter(&mut self.photo, id)
    }

    /// Counts one change of an Album.
    pub fn advance_album(&mut self, id: &str) -> (result: Result<(), MutationError>)
        ensures
            final(self).epoch == old(self).epoch,
            final(self).photo == old(self).photo,
            advanced(old(self).album@, final(self).album@, id@, result),
    {
        advance_counter(&mut self.album, id)
    }

    /// Forgets the counter of a deleted Album.
    pub fn forget_album(&mut self, id: &str)
        ensures
            final(self).epoch == old(self).epoch,
            final(self).photo == old(self).photo,
            final(self).album@ == old(self).album@.remove(id@),
    {
        self.album.remove(id);
    }

    /// Writes a token.
    pub fn token(&self, kind: &str, id: &str, counter: u64) -> (token: String)
        ensures
            token@ == token_text(self.epoch@, kind@, id@, counter as nat),
    {
        proof {
            reveal_strlit(":");
            assert(":"@ =~= seq![':']);
        }
        let mut token: String = self.epoch.clone();
        token.append(":");
        token.append(kind);
        token.append(":");
        token.append(id);
        token.append(":");
        let digits: String = decimal_text(counter);
        token.append(digits.as_str());
        token
    }
}

/// What counting one change does to a map of counters and answers: the counter
/// grows by one, or nothing changes when it cannot grow.
pub open spec fn advanced(
    before: Map<Seq<char>, u64>,
    after: Map<Seq<char>, u64>,
    id: Seq<char>,
    result: Result<(), MutationError>,
) -> bool {
    if count_of(before, id) < u64::MAX {
        result == Ok::<(), MutationError>(()) && after == before.insert(
            id,
            (count_of(before, id) + 1) as u64,
        )
    } else {
        result == Err::<(), MutationError>(MutationError::Persistence) && after == before
    }
}

fn read_counter(counters: &StringHashMap<u64>, id: &str) -> (counter: u64)
    ensures
        counter == count_of(counters@, id@),
{
    match counters.get(id) {
        Some(counter) => *counter,
        None => 0,
    }
}

/// Counts one change of an identity.
pub fn advance_counter(counters: &mut StringHashMap<u64>, id: &str) -> (result: Result<
    (),
    MutationError,
>)
    ensures
        advanced(old(counters)@, final(counters)@, id@, result),
{
    let counter: u64 = read_counter(counters, id);
    match counter.checked_add(1) {
        Some(next) => {
            counters.insert(id.to_owned(), next);
            Ok(())
        },
        None => Err(MutationError::Persistence),
    }
}

/// Two tokens of one kind in one epoch are the same only for the same identity
/// at the same count, so no earlier token of an identity is ever issued again
/// while its counter grows.
pub proof fn law_tokens_are_unique(
    epoch: Seq<char>,
    kind: Seq<char>,
    id1: Seq<char>,
    count1: nat,
    id2: Seq<char>,
    count2: nat,
)
    requires
        token_text(epoch, kind, id1, count1) == token_text(epoch, kind, id2, count2),
    ensures
        id1 == id2,
        count1 == count2,
{
    let head = epoch + seq![':'] + kind + seq![':'];
    let d1 = decimal(count1);
    let d2 = decimal(count2);
    let t1 = head + id1 + seq![':'] + d1;
    let t2 = head + id2 + seq![':'] + d2;
    assert(t1 =~= token_text(epoch, kind, id1, count1));
    assert(t2 =~= token_text(epoch, kind, id2, count2));
    law_decimal_reads_back(count1);
    law_decimal_reads_back(count2);
    let n = t1.len() as int;
    if d1.len() < d2.len() {
        assert(t1[n - d1.len() - 1] == ':');
        assert(t2[n - d1.len() - 1] == d2[d2.len() - d1.len() - 1]);
        assert(is_digit(d2[d2.len() - d1.len() - 1]));
    } else if d2.len() < d1.len() {
        assert(t2[n - d2.len() - 1] == ':');
        assert(t1[n - d2.len() - 1] == d1[d1.len() - d2.len() - 1]);
        assert(is_digit(d1[d1.len() - d2.len() - 1]));
    } else {
        let cut = n - d1.len() as int;
        assert(d1 =~= t1.skip(cut));
        assert(d2 =~= t2.skip(cut));
        assert(id1 =~= t1.subrange(head.len() as int, cut - 1));
        assert(id2 =~= t2.subrange(head.len() as int, cut - 1));
        law_decimal_injective(count1, count2);
    }
}

/// No token of a Photo is ever one of an Album in the same epoch, whatever their
/// identities and counts.
pub proof fn law_kinds_do_not_share_tokens(
    epoch: Seq<char>,
    photo_id: Seq<char>,
    photo_count: nat,
    album_id: Seq<char>,
    album_count: nat,
)
    ensures
        token_text(epoch, "photo"@, photo_id, photo_count) != token_text(
            epoch,
            "album"@,
            album_id,
            album_count,
        ),
{
    reveal_strlit("photo");
    reveal_strlit("album");
    let at = epoch.len() as int + 1;
    assert(token_text(epoch, "photo"@, photo_id, photo_count)[at] == 'p');
    assert(token_text(epoch, "album"@, album_id, album_count)[at] == 'a');
}

/// A token of one epoch is no token of another epoch of the same length, so
/// every token issued before a restart conflicts after it.
pub proof fn law_epochs_do_not_share_tokens(
    epoch1: Seq<char>,
    epoch2: Seq<char>,
    kind1: Seq<char>,
    kind2: Seq<char>,
    id1: Seq<char>,
    id2: Seq<char>,
    count1: nat,
    count2: nat,
)
    requires
        epoch1.len() == epoch2.len(),
        epoch1 != epoch2,
    ensures
        token_text(epoch1, kind1, id1, count1) != token_text(epoch2, kind2, id2, count2),
{
    let t1 = token_text(epoch1, kind1, id1, count1);
    let t2 = token_text(epoch2, kind2, id2, count2);
    assert(t1.take(epoch1.len() as int) =~= epoch1);
    assert(t2.take(epoch2.len() as int) =~= epoch2);
}

/// Counting a change of one thing moves its counter by one and no other; a counter that
/// is at its end does not move, and the change is refused.
pub proof fn law_counters_move_by_one(
    before: Map<Seq<char>, u64>,
    after: Map<Seq<char>, u64>,
    id: Seq<char>,
    result: Result<(), MutationError>,
    other: Seq<char>,
)
    requires
        advanced(before, after, id, result),
    ensures
        result is Ok <==> count_of(before, id) < 0xffff_ffff_ffff_ffff,
        result is Ok ==> count_of(after, id) == count_of(before, id) + 1,
        result is Err ==> count_of(after, id) == count_of(before, id),
        other != id ==> count_of(after, other) == count_of(before, other),
{
}

/// A token tells the epoch, the kind, the identity and the number of changes, in this
/// order and set apart by colons.
pub proof fn law_tokens_tell_their_parts(versions: MutationVersions, id: Seq<char>)
    ensures
        versions.photo_token(id) == versions.epoch@ + ":photo:"@ + id + ":"@ + decimal(
            count_of(versions.photo@, id) as nat,
        ),
        versions.album_token(id) == versions.epoch@ + ":album:"@ + id + ":"@ + decimal(
            count_of(versions.album@, id) as nat,
        ),
        !versions.photo@.contains_key(id) ==> count_of(versions.photo@, id) == 0,
        versions.photo@.contains_key(id) ==> count_of(versions.photo@, id) == versions.photo@[id],
{
    reveal_strlit("photo");
    reveal_strlit("album");
    reveal_strlit(":photo:");
    reveal_strlit(":album:");
    reveal_strlit(":");
    assert(":photo:"@ =~= seq![':'] + "photo"@ + seq![':']);
    assert(":album:"@ =~= seq![':'] + "album"@ + seq![':']);
    assert(":"@ =~= seq![':']);
    assert(versions.photo_token(id) =~= versions.epoch@ + ":photo:"@ + id + ":"@ + decimal(
        count_of(versions.photo@, id) as nat,
    ));
    assert(versions.album_token(id) =~= versions.epoch@ + ":album:"@ + id + ":"@ + decimal(
        count_of(versions.album@, id) as nat,
    ));
}

} // verus!
