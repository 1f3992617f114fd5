//! The stored state of one Album and how its membership changes.
use crate::error::MutationError;
use crate::text::{
    contains_text, first_index, lemma_first_index, lemma_first_index_absent, lemma_first_index_found,
    lemma_texts_push, opt_text, same_text, texts,
};
use vstd::prelude::*;
use vstd::string::*;

verus! {

/// A Photo of an Album. A removed Photo keeps its membership but is not shown.
#[derive(Clone, Debug, PartialEq, Eq)]
pub struct Member {
    pub photo_id: String,
    pub position: i64,
    pub removed: bool,
}

/// What a [`Member`] stands for.
pub struct MemberView {
    pub photo_id: Seq<char>,
    pub position: int,
    pub removed: bool,
}

impl View for Member {
    type V = MemberView;

    open spec fn view(&self) -> MemberView {
        MemberView {
            photo_id: self.photo_id@,
            position: self.position as int,
            removed: self.removed,
        }
    }
}

/// The stored rows of one Album: its members in the order of their positions,
/// and the Photo at which browsing stopped.
#[derive(Clone, Debug, PartialEq, Eq)]
pub struct AlbumState {
    pub id: String,
    pub name: String,
    pub created_at: i64,
    pub members: Vec<Member>,
    pub saved_photo_id: Option<String>,
}

/// What an [`AlbumState`] stands for.
pub struct AlbumView {
    pub id: Seq<char>,
    pub name: Seq<char>,
    pub created_at: int,
    pub members: Seq<MemberView>,
    pub saved_photo_id: Option<Seq<char>>,
}

/// What a list of members stands for.
pub open spec fn members_view(members: Seq<Member>) -> Seq<MemberView> {
    Seq::new(members.len(), |i: int| members[i]@)
}

impl View for AlbumState {
    type V = AlbumView;

    open spec fn view(&self) -> AlbumView {
        AlbumView {
            id: self.id@,
            name: self.name@,
            created_at: self.created_at as int,
            members: members_view(self.members@),
            saved_photo_id: opt_text(self.saved_photo_id),
        }
    }
}

/// A Photo that the Library knows.
#[derive(Clone, Debug, PartialEq, Eq)]
pub struct PhotoPresence {
    pub photo_id: String,
    pub removed: bool,
}

/// The identities of a list of known Photos.
pub open spec fn presence_ids(photos: Seq<PhotoPresence>) -> Seq<Seq<char>> {
    Seq::new(photos.len(), |i: int| photos[i].photo_id@)
}

/// Whether a Photo is known.
pub open spec fn known(photos: Seq<PhotoPresence>, id: Seq<char>) -> bool {
    presence_ids(photos).contains(id)
}

/// Whether a known Photo is removed from the Library.
pub open spec fn known_removed(photos: Seq<PhotoPresence>, id: Seq<char>) -> bool {
    match first_index(presence_ids(photos), id) {
        Some(i) => photos[i].removed,
        None => false,
    }
}

/// The identities of an Album's members, in order.
pub open spec fn member_ids(members: Seq<MemberView>) -> Seq<Seq<char>> {
    Seq::new(members.len(), |i: int| members[i].photo_id)
}

/// Whether the members stand at the positions 0, 1, 2 and so on.
pub open spec fn dense(members: Seq<MemberView>) -> bool {
    forall|i: int| 0 <= i < members.len() ==> (#[trigger] members[i]).position == i
}

/// How many members are shown.
pub open spec fn shown_count(members: Seq<MemberView>) -> nat
    decreases members.len(),
{
    if members.len() == 0 {
        0
    } else {
        shown_count(members.drop_last()) + if members.last().removed {
            0nat
        } else {
            1nat
        }
    }
}

/// The highest position of a list of members that is not empty.
pub open spec fn max_position(members: Seq<MemberView>) -> int
    decreases members.len(),
{
    if members.len() <= 1 {
        members[0].position
    } else {
        let front = max_position(members.drop_last());
        if members.last().position > front {
            members.last().position
        } else {
            front
        }
    }
}

/// The position that the next member takes: after every other one.
pub open spec fn next_position(members: Seq<MemberView>) -> int {
    if members.len() == 0 {
        0
    } else {
        max_position(members) + 1
    }
}

/// The identities of a request that are new to a list, each once, in order.
pub open spec fn added_ids(current: Seq<Seq<char>>, ids: Seq<Seq<char>>) -> Seq<Seq<char>>
    decreases ids.len(),
{
    if ids.len() == 0 {
        Seq::empty()
    } else {
        let before = added_ids(current, ids.drop_last());
        if current.contains(ids.last()) || before.contains(ids.last()) {
            before
        } else {
            before.push(ids.last())
        }
    }
}

/// The identities of a request that the list, or the request before them,
/// already held.
pub open spec fn already_ids(current: Seq<Seq<char>>, ids: Seq<Seq<char>>) -> Seq<Seq<char>>
    decreases ids.len(),
{
    if ids.len() == 0 {
        Seq::empty()
    } else {
        let before = already_ids(current, ids.drop_last());
        if current.contains(ids.last()) || added_ids(current, ids.drop_last()).contains(
            ids.last(),
        ) {
            before.push(ids.last())
        } else {
            before
        }
    }
}

/// The members after a request to add Photos: what was a member keeps its
/// position, and each new Photo is appended.
pub open spec fn with_members(
    members: Seq<MemberView>,
    photos: Seq<PhotoPresence>,
    ids: Seq<Seq<char>>,
) -> Seq<MemberView>
    decreases ids.len(),
{
    if ids.len() == 0 {
        members
    } else {
        let before = with_members(members, photos, ids.drop_last());
        if member_ids(before).contains(ids.last()) {
            before
        } else {
            before.push(
                MemberView {
                    photo_id: ids.last(),
                    position: next_position(before),
                    removed: known_removed(photos, ids.last()),
                },
            )
        }
    }
}

/// The members other than one Photo, those after a position moved up by one.
pub open spec fn closed_up(members: Seq<MemberView>, id: Seq<char>, position: int) -> Seq<
    MemberView,
>
    decreases members.len(),
{
    if members.len() == 0 {
        Seq::empty()
    } else {
        let before = closed_up(members.drop_last(), id, position);
        let last = members.last();
        if last.photo_id == id {
            before
        } else if last.position > position {
            before.push(MemberView { position: last.position - 1, ..last })
        } else {
            before.push(last)
        }
    }
}

/// The members after removing one Photo: the gap that it leaves is closed.
pub open spec fn without_member(members: Seq<MemberView>, id: Seq<char>) -> Seq<MemberView> {
    match first_index(member_ids(members), id) {
        Some(i) => closed_up(members, id, members[i].position),
        None => members,
    }
}

/// The members after removing Photos one after another.
pub open spec fn without_members(members: Seq<MemberView>, ids: Seq<Seq<char>>) -> Seq<MemberView>
    decreases ids.len(),
{
    if ids.len() == 0 {
        members
    } else {
        without_member(without_members(members, ids.drop_last()), ids.last())
    }
}

/// The identities of a request that a list holds, each once, in order.
pub open spec fn removed_ids(current: Seq<Seq<char>>, ids: Seq<Seq<char>>) -> Seq<Seq<char>>
    decreases ids.len(),
{
    if ids.len() == 0 {
        Seq::empty()
    } else {
        let before = removed_ids(current, ids.drop_last());
        if current.contains(ids.last()) && !before.contains(ids.last()) {
            before.push(ids.last())
        } else {
            before
        }
    }
}

/// The identities of a request that a list does not hold, or no longer.
pub open spec fn absent_ids(current: Seq<Seq<char>>, ids: Seq<Seq<char>>) -> Seq<Seq<char>>
    decreases ids.len(),
{
    if ids.len() == 0 {
        Seq::empty()
    } else {
        let before = absent_ids(current, ids.drop_last());
        if current.contains(ids.last()) && !removed_ids(current, ids.drop_last()).contains(
            ids.last(),
        ) {
            before
        } else {
            before.push(ids.last())
        }
    }
}

/// The saved Photo after members left: it stays only while it is a member.
pub open spec fn saved_after(saved: Option<Seq<char>>, gone: Seq<Seq<char>>) -> Option<
    Seq<char>,
> {
    match saved {
        Some(id) => if gone.contains(id) {
            None
        } else {
            saved
        },
        None => None,
    }
}

/// The members in a requested order, at the positions 0, 1, 2 and so on.
pub open spec fn reordered(members: Seq<MemberView>, ids: Seq<Seq<char>>) -> Seq<MemberView> {
    Seq::new(
        ids.len(),
        |i: int|
            MemberView {
                photo_id: ids[i],
                position: i,
                removed: match first_index(member_ids(members), ids[i]) {
                    Some(j) => members[j].removed,
                    None => false,
                },
            },
    )
}

/// Whether two lists hold the same identities.
pub open spec fn same_set(left: Seq<Seq<char>>, right: Seq<Seq<char>>) -> bool {
    forall|id: Seq<char>| #[trigger] left.contains(id) <==> right.contains(id)
}

/// Adding leaves the members that were there and appends the new ones.
pub proof fn lemma_with_members_ids(
    members: Seq<MemberView>,
    photos: Seq<PhotoPresence>,
    ids: Seq<Seq<char>>,
)
    ensures
        member_ids(with_members(members, photos, ids)) == member_ids(members) + added_ids(
            member_ids(members),
            ids,
        ),
    decreases ids.len(),
{
    let current = member_ids(members);
    if ids.len() == 0 {
        assert(member_ids(members) + added_ids(current, ids) =~= current);
    } else {
        lemma_with_members_ids(members, photos, ids.drop_last());
        let before = with_members(members, photos, ids.drop_last());
        let fresh = added_ids(current, ids.drop_last());
        let id = ids.last();
        lemma_contains_concat(current, fresh, id);
        if !member_ids(before).contains(id) {
            assert(member_ids(with_members(members, photos, ids)) =~= member_ids(before).push(id));
            assert((current + fresh).push(id) =~= current + fresh.push(id));
        }
    }
}

/// A text occurs in two lists together when it occurs in one of them.
pub proof fn lemma_contains_concat(left: Seq<Seq<char>>, right: Seq<Seq<char>>, id: Seq<char>)
    ensures
        (left + right).contains(id) <==> left.contains(id) || right.contains(id),
{
    if left.contains(id) {
        let i = choose|i: int| 0 <= i < left.len() && left[i] == id;
        assert((left + right)[i] == id);
    }
    if right.contains(id) {
        let i = choose|i: int| 0 <= i < right.len() && right[i] == id;
        assert((left + right)[left.len() + i] == id);
    }
    if (left + right).contains(id) {
        let i = choose|i: int| 0 <= i < (left + right).len() && (left + right)[i] == id;
        if i < left.len() {
            assert(left[i] == id);
        } else {
            assert(right[i - left.len()] == id);
        }
    }
}

/// A longer request adds at least what its beginning adds.
pub proof fn lemma_added_grows(current: Seq<Seq<char>>, ids: Seq<Seq<char>>, n: int)
    requires
        0 <= n <= ids.len(),
    ensures
        added_ids(current, ids.take(n)).len() <= added_ids(current, ids).len(),
        already_ids(current, ids.take(n)).len() <= already_ids(current, ids).len(),
    decreases ids.len(),
{
    if n < ids.len() {
        lemma_added_grows(current, ids.drop_last(), n);
        assert(ids.drop_last().take(n) =~= ids.take(n));
    } else {
        assert(ids.take(n) =~= ids);
    }
}

/// Each identity of a request is either new or was already there.
pub proof fn law_add_partitions_the_request(current: Seq<Seq<char>>, ids: Seq<Seq<char>>)
    ensures
        added_ids(current, ids).len() + already_ids(current, ids).len() == ids.len(),
        forall|id: Seq<char>|
            #[trigger] ids.contains(id) ==> (added_ids(current, ids).contains(id)
                || current.contains(id)),
        forall|id: Seq<char>|
            added_ids(current, ids).contains(id) ==> #[trigger] ids.contains(id)
                && !current.contains(id),
        added_ids(current, ids).no_duplicates(),
    decreases ids.len(),
{
    if ids.len() > 0 {
        let front = ids.drop_last();
        let id = ids.last();
        law_add_partitions_the_request(current, front);
        let before = added_ids(current, front);
        assert forall|x: Seq<char>| #[trigger] ids.contains(x) implies (added_ids(
            current,
            ids,
        ).contains(x) || current.contains(x)) by {
            if x != id {
                let i = choose|i: int| 0 <= i < ids.len() && ids[i] == x;
                assert(front[i] == x);
                assert(front.contains(x));
                if before.contains(x) {
                    let j = choose|j: int| 0 <= j < before.len() && before[j] == x;
                    assert(before.push(id)[j] == x);
                }
            } else {
                assert(before.push(id)[before.len() as int] == id);
            }
        }
        assert forall|x: Seq<char>|
            added_ids(current, ids).contains(x) implies #[trigger] ids.contains(x)
            && !current.contains(x) by {
            assert(ids[ids.len() - 1] == id);
            if before.contains(x) {
                let i = choose|i: int| 0 <= i < front.len() && front[i] == x;
                assert(front.contains(x));
                assert(ids[i] == x);
            } else {
                let k = choose|k: int|
                    0 <= k < added_ids(current, ids).len() && added_ids(current, ids)[k] == x;
                if k < before.len() {
                    assert(before[k] == x);
                }
                assert(x == id);
            }
        }
        if !(current.contains(id) || before.contains(id)) {
            let after = before.push(id);
            assert forall|i: int, j: int| 0 <= i < after.len() && 0 <= j < after.len() && i
                != j implies after[i] != after[j] by {
                if i < before.len() && j < before.len() {
                } else if i < before.len() {
                    assert(before.contains(before[i]));
                } else {
                    assert(before.contains(before[j]));
                }
            }
        }
    }
}

/// Appending after every other position keeps every position and comes next.
pub proof fn lemma_next_position_push(members: Seq<MemberView>, member: MemberView)
    requires
        member.position == next_position(members),
    ensures
        next_position(members.push(member)) == next_position(members) + 1,
{
    let after = members.push(member);
    assert(after.drop_last() =~= members);
    if members.len() == 0 {
        assert(after[0] == member);
    } else {
        assert(after.last() == member);
    }
}

proof fn lemma_dense_max(members: Seq<MemberView>)
    requires
        dense(members),
        members.len() > 0,
    ensures
        max_position(members) == members.len() - 1,
    decreases members.len(),
{
    if members.len() > 1 {
        let front = members.drop_last();
        assert forall|i: int| 0 <= i < front.len() implies (#[trigger] front[i]).position
            == i by {
            assert(front[i] == members[i]);
        }
        lemma_dense_max(front);
        assert(members.last() == members[members.len() - 1]);
    }
}

/// Adding Photos to an Album whose positions are dense keeps them dense.
pub proof fn law_add_keeps_positions_dense(
    members: Seq<MemberView>,
    photos: Seq<PhotoPresence>,
    ids: Seq<Seq<char>>,
)
    requires
        dense(members),
    ensures
        dense(with_members(members, photos, ids)),
    decreases ids.len(),
{
    if ids.len() > 0 {
        law_add_keeps_positions_dense(members, photos, ids.drop_last());
        let before = with_members(members, photos, ids.drop_last());
        let after = with_members(members, photos, ids);
        if before.len() > 0 {
            lemma_dense_max(before);
        }
        assert forall|i: int| 0 <= i < after.len() implies (#[trigger] after[i]).position
            == i by {
            if i < before.len() {
                assert(after[i] == before[i]);
            }
        }
    }
}

/// Adding Photos that are all members already changes nothing.
pub proof fn law_adding_members_again_changes_nothing(
    members: Seq<MemberView>,
    photos: Seq<PhotoPresence>,
    ids: Seq<Seq<char>>,
)
    requires
        forall|id: Seq<char>| #[trigger] ids.contains(id) ==> member_ids(members).contains(id),
    ensures
        with_members(members, photos, ids) == members,
        added_ids(member_ids(members), ids).len() == 0,
        already_ids(member_ids(members), ids) == ids,
    decreases ids.len(),
{
    if ids.len() > 0 {
        let front = ids.drop_last();
        assert forall|id: Seq<char>| #[trigger] front.contains(id) implies member_ids(
            members,
        ).contains(id) by {
            let i = choose|i: int| 0 <= i < front.len() && front[i] == id;
            assert(ids[i] == id);
            assert(ids.contains(id));
        }
        law_adding_members_again_changes_nothing(members, photos, front);
        assert(ids[ids.len() - 1] == ids.last());
        assert(ids.contains(ids.last()));
        assert(front.push(ids.last()) =~= ids);
    } else {
        assert(already_ids(member_ids(members), ids) =~= ids);
    }
}

/// What is kept of a list without one identity.
pub open spec fn ids_without(ids: Seq<Seq<char>>, id: Seq<char>) -> Seq<Seq<char>>
    decreases ids.len(),
{
    if ids.len() == 0 {
        Seq::empty()
    } else if ids.last() == id {
        ids_without(ids.drop_last(), id)
    } else {
        ids_without(ids.drop_last(), id).push(ids.last())
    }
}

proof fn lemma_closed_up_ids(members: Seq<MemberView>, id: Seq<char>, position: int)
    ensures
        member_ids(closed_up(members, id, position)) == ids_without(member_ids(members), id),
    decreases members.len(),
{
    if members.len() > 0 {
        lemma_closed_up_ids(members.drop_last(), id, position);
        assert(member_ids(members).drop_last() =~= member_ids(members.drop_last()));
        let before = closed_up(members.drop_last(), id, position);
        if members.last().photo_id != id {
            assert(member_ids(closed_up(members, id, position)) =~= member_ids(before).push(
                members.last().photo_id,
            ));
        }
    } else {
        assert(member_ids(closed_up(members, id, position)) =~= ids_without(
            member_ids(members),
            id,
        ));
    }
}

proof fn lemma_ids_without_absent(ids: Seq<Seq<char>>, id: Seq<char>)
    requires
        !ids.contains(id),
    ensures
        ids_without(ids, id) == ids,
    decreases ids.len(),
{
    if ids.len() > 0 {
        let front = ids.drop_last();
        assert(ids[ids.len() - 1] == ids.last());
        if front.contains(id) {
            let i = choose|i: int| 0 <= i < front.len() && front[i] == id;
            assert(ids[i] == id);
        }
        lemma_ids_without_absent(front, id);
        assert(front.push(ids.last()) =~= ids);
    } else {
        assert(ids_without(ids, id) =~= ids);
    }
}

/// Leaving out one identity leaves every other one.
pub proof fn lemma_ids_without_contains(ids: Seq<Seq<char>>, id: Seq<char>, x: Seq<char>)
    ensures
        ids_without(ids, id).contains(x) <==> ids.contains(x) && x != id,
        ids_without(ids, id).len() <= ids.len(),
    decreases ids.len(),
{
    if ids.len() > 0 {
        let front = ids.drop_last();
        lemma_ids_without_contains(front, id, x);
        let kept = ids_without(front, id);
        assert(front.push(ids.last()) =~= ids);
        lemma_push_contains(front, ids.last(), x);
        lemma_push_contains(kept, ids.last(), x);
    }
}

proof fn lemma_push_contains(list: Seq<Seq<char>>, item: Seq<char>, x: Seq<char>)
    ensures
        list.push(item).contains(x) <==> list.contains(x) || x == item,
{
    if list.contains(x) {
        let i = choose|i: int| 0 <= i < list.len() && list[i] == x;
        assert(list.push(item)[i] == x);
    }
    assert(list.push(item)[list.len() as int] == item);
    if list.push(item).contains(x) {
        let i = choose|i: int| 0 <= i < list.push(item).len() && list.push(item)[i] == x;
        if i < list.len() {
            assert(list[i] == x);
        }
    }
}

/// Removing one Photo leaves every other member, in order.
pub proof fn lemma_without_member_ids(members: Seq<MemberView>, id: Seq<char>)
    ensures
        member_ids(without_member(members, id)) == ids_without(member_ids(members), id),
{
    lemma_first_index_found(member_ids(members), id);
    match first_index(member_ids(members), id) {
        Some(i) => {
            lemma_closed_up_ids(members, id, members[i].position);
        },
        None => {
            lemma_ids_without_absent(member_ids(members), id);
        },
    }
}

proof fn lemma_closed_up_prefix(members: Seq<MemberView>, id: Seq<char>, at: int, n: int)
    requires
        dense(members),
        member_ids(members).no_duplicates(),
        0 <= at < members.len(),
        members[at].photo_id == id,
        0 <= n <= members.len(),
    ensures
        closed_up(members.take(n), id, at).len() == (if n <= at {
            n
        } else {
            n - 1
        }),
        dense(closed_up(members.take(n), id, at)),
    decreases n,
{
    let taken = members.take(n);
    if n > 0 {
        lemma_closed_up_prefix(members, id, at, n - 1);
        assert(taken.drop_last() =~= members.take(n - 1));
        assert(taken.last() == members[n - 1]);
        let before = closed_up(members.take(n - 1), id, at);
        if n - 1 != at {
            assert(member_ids(members)[n - 1] != member_ids(members)[at]);
        }
        let after = closed_up(taken, id, at);
        assert forall|i: int| 0 <= i < after.len() implies (#[trigger] after[i]).position
            == i by {
            if i < before.len() {
                assert(after[i] == before[i]);
            }
        }
    }
}

/// Removing a member closes the gap: dense positions stay dense.
pub proof fn law_remove_keeps_positions_dense(members: Seq<MemberView>, id: Seq<char>)
    requires
        dense(members),
        member_ids(members).no_duplicates(),
    ensures
        dense(without_member(members, id)),
        member_ids(without_member(members, id)).no_duplicates(),
{
    lemma_first_index_found(member_ids(members), id);
    if let Some(at) = first_index(member_ids(members), id) {
        assert(member_ids(members)[at] == members[at].photo_id);
        lemma_closed_up_prefix(members, id, at, members.len() as int);
        assert(members.take(members.len() as int) =~= members);
    }
    lemma_without_member_ids(members, id);
    lemma_ids_without_distinct(member_ids(members), id);
}

proof fn lemma_ids_without_distinct(ids: Seq<Seq<char>>, id: Seq<char>)
    requires
        ids.no_duplicates(),
    ensures
        ids_without(ids, id).no_duplicates(),
    decreases ids.len(),
{
    if ids.len() > 0 {
        let front = ids.drop_last();
        lemma_ids_without_distinct(front, id);
        let kept = ids_without(front, id);
        lemma_ids_without_contains(front, id, ids.last());
        if front.contains(ids.last()) {
            let i = choose|i: int| 0 <= i < front.len() && front[i] == ids.last();
            assert(ids[i] == ids[ids.len() - 1]);
        }
        let after = kept.push(ids.last());
        assert forall|i: int, j: int| 0 <= i < after.len() && 0 <= j < after.len() && i
            != j implies after[i] != after[j] by {
            if i < kept.len() && j < kept.len() {
            } else if i < kept.len() {
                assert(kept.contains(kept[i]));
            } else {
                assert(kept.contains(kept[j]));
            }
        }
    }
}

/// Whether the members from an index on stand one after another from a position on,
/// behind every member before them, and name Photos that no member before them names.
spec fn queued(members: Seq<MemberView>, keep: int, from: int) -> bool {
    &&& 0 <= keep <= members.len()
    &&& forall|i: int| 0 <= i < keep ==> (#[trigger] members[i]).position < from
    &&& forall|i: int|
        keep <= i < members.len() ==> (#[trigger] members[i]).position == from + (i - keep)
    &&& forall|i: int, j: int|
        0 <= i < j < members.len() && keep <= j ==> (#[trigger] members[i]).photo_id != (
        #[trigger] members[j]).photo_id
}

/// Members without some from an index on, those behind moved up to their places.
spec fn dropped(members: Seq<MemberView>, at: int, count: int) -> Seq<MemberView> {
    Seq::new(
        (members.len() - count) as nat,
        |i: int|
            if i < at {
                members[i]
            } else {
                MemberView { position: members[i].position, ..members[i + count] }
            },
    )
}

proof fn lemma_positions_below_next(members: Seq<MemberView>)
    ensures
        forall|i: int|
            0 <= i < members.len() ==> (#[trigger] members[i]).position < next_position(members),
    decreases members.len(),
{
    if members.len() > 1 {
        let front = members.drop_last();
        lemma_positions_below_next(front);
        assert forall|i: int| 0 <= i < members.len() implies (#[trigger] members[i]).position
            < next_position(members) by {
            if i < front.len() {
                assert(front[i] == members[i]);
            }
        }
    }
}

proof fn lemma_next_behind_queue(members: Seq<MemberView>, keep: int, from: int)
    requires
        queued(members, keep, from),
        from == next_position(members.take(keep)),
    ensures
        next_position(members) == from + (members.len() - keep),
    decreases members.len(),
{
    if members.len() == keep {
        assert(members.take(keep) =~= members);
    } else {
        let front = members.drop_last();
        assert(front.take(keep) =~= members.take(keep));
        assert(queued(front, keep, from));
        lemma_next_behind_queue(front, keep, from);
    }
}

proof fn lemma_added_queue(
    members: Seq<MemberView>,
    photos: Seq<PhotoPresence>,
    ids: Seq<Seq<char>>,
)
    ensures
        ({
            let after = with_members(members, photos, ids);
            &&& queued(after, members.len() as int, next_position(members))
            &&& after.take(members.len() as int) == members
        }),
    decreases ids.len(),
{
    let keep = members.len() as int;
    let from = next_position(members);
    if ids.len() == 0 {
        lemma_positions_below_next(members);
        assert(members.take(keep) =~= members);
    } else {
        lemma_added_queue(members, photos, ids.drop_last());
        let before = with_members(members, photos, ids.drop_last());
        let after = with_members(members, photos, ids);
        if !member_ids(before).contains(ids.last()) {
            lemma_next_behind_queue(before, keep, from);
            assert(after.take(keep) =~= before.take(keep));
            assert forall|i: int, j: int|
                0 <= i < j < after.len() && keep <= j implies (#[trigger] after[i]).photo_id != (
            #[trigger] after[j]).photo_id by {
                if j == before.len() {
                    assert(member_ids(before)[i] == after[i].photo_id);
                }
            }
        }
    }
}

proof fn lemma_closed_up_queue(members: Seq<MemberView>, keep: int, from: int, n: int)
    requires
        queued(members, keep, from),
        keep < members.len(),
        0 <= n <= members.len(),
    ensures
        closed_up(members.take(n), members[keep].photo_id, from) == (if n <= keep {
            members.take(n)
        } else {
            dropped(members, keep, 1).take(n - 1)
        }),
    decreases n,
{
    let id = members[keep].photo_id;
    let taken = members.take(n);
    let rest = dropped(members, keep, 1);
    if n == 0 {
        assert(closed_up(taken, id, from) =~= members.take(n));
    } else {
        lemma_closed_up_queue(members, keep, from, n - 1);
        assert(taken.drop_last() =~= members.take(n - 1));
        assert(taken.last() == members[n - 1]);
        if n <= keep {
            assert(members[n - 1].photo_id != id);
            assert(closed_up(taken, id, from) =~= taken);
        } else if n - 1 == keep {
            assert(members.take(keep) =~= rest.take(keep));
        } else {
            assert(members[n - 1].photo_id != id);
            assert(members[n - 2].position == members[n - 1].position - 1);
            assert(rest.take(n - 2).push(rest[n - 2]) =~= rest.take(n - 1));
        }
    }
}

#[verifier::spinoff_prover]
#[verifier::rlimit(40)]
proof fn lemma_remove_queue(
    members: Seq<MemberView>,
    keep: int,
    from: int,
    gone: Seq<Seq<char>>,
    k: int,
)
    requires
        queued(members, keep, from),
        keep + gone.len() == members.len(),
        0 <= k <= gone.len(),
        forall|j: int| 0 <= j < gone.len() ==> gone[j] == members[keep + j].photo_id,
    ensures
        without_members(members, gone.take(k)) == dropped(members, keep, k),
    decreases k,
{
    if k == 0 {
        assert(dropped(members, keep, 0) =~= members);
    } else {
        lemma_remove_queue(members, keep, from, gone, k - 1);
        assert(gone.take(k).drop_last() =~= gone.take(k - 1));
        let before = dropped(members, keep, k - 1);
        assert(queued(before, keep, from)) by {
            assert forall|i: int, j: int|
                0 <= i < j < before.len() && keep <= j implies (#[trigger] before[i]).photo_id != (
            #[trigger] before[j]).photo_id by {
                assert(before[j].photo_id == members[j + k - 1].photo_id);
                if i >= keep {
                    assert(before[i].photo_id == members[i + k - 1].photo_id);
                }
            }
        }
        let id = before[keep].photo_id;
        assert(id == gone[k - 1]);
        assert forall|j: int| 0 <= j < keep implies member_ids(before)[j] != id by {
            assert(before[j].photo_id != before[keep].photo_id);
        }
        lemma_first_index(member_ids(before), id, keep);
        lemma_closed_up_queue(before, keep, from, before.len() as int);
        assert(before.take(before.len() as int) =~= before);
        assert(dropped(before, keep, 1).take(before.len() - 1) =~= dropped(members, keep, k));
    }
}

/// Removing exactly what a request added gives back the membership from before
/// it, positions and all.
pub proof fn law_removing_what_was_added_restores(
    members: Seq<MemberView>,
    photos: Seq<PhotoPresence>,
    ids: Seq<Seq<char>>,
)
    ensures
        without_members(
            with_members(members, photos, ids),
            added_ids(member_ids(members), ids),
        ) == members,
{
    let after = with_members(members, photos, ids);
    let gone = added_ids(member_ids(members), ids);
    let keep = members.len() as int;
    lemma_added_queue(members, photos, ids);
    lemma_with_members_ids(members, photos, ids);
    assert(member_ids(after).len() == after.len());
    assert forall|j: int| 0 <= j < gone.len() implies gone[j] == after[keep + j].photo_id by {
        assert(member_ids(after)[keep + j] == gone[j]);
    }
    lemma_remove_queue(after, keep, next_position(members), gone, gone.len() as int);
    assert(gone.take(gone.len() as int) =~= gone);
    assert(dropped(after, keep, gone.len() as int) =~= members) by {
        assert forall|i: int| 0 <= i < keep implies after[i] == members[i] by {
            assert(after.take(keep)[i] == after[i]);
        }
    }
}

/// A reorder keeps exactly the members there were, each shown or not as before,
/// in the requested order and at dense positions.
pub proof fn law_reorder_keeps_the_members(members: Seq<MemberView>, ids: Seq<Seq<char>>)
    requires
        same_set(member_ids(members), ids),
        ids.no_duplicates(),
        member_ids(members).no_duplicates(),
    ensures
        member_ids(reordered(members, ids)) == ids,
        dense(reordered(members, ids)),
        reordered(members, ids).len() == members.len(),
        forall|i: int, j: int|
            0 <= i < ids.len() && 0 <= j < members.len() && members[j].photo_id == ids[i]
                ==> #[trigger] reordered(members, ids)[i].removed == (
            #[trigger] members[j]).removed,
{
    let current = member_ids(members);
    assert(member_ids(reordered(members, ids)) =~= ids);
    lemma_same_set_len(current, ids);
    assert forall|i: int, j: int|
        0 <= i < ids.len() && 0 <= j < members.len() && members[j].photo_id
            == ids[i] implies #[trigger] reordered(members, ids)[i].removed == (
    #[trigger] members[j]).removed by {
        assert forall|k: int| 0 <= k < j implies current[k] != ids[i] by {
            assert(current[j] == ids[i]);
        }
        lemma_first_index(current, ids[i], j);
    }
}

proof fn lemma_same_set_len(left: Seq<Seq<char>>, right: Seq<Seq<char>>)
    requires
        same_set(left, right),
        left.no_duplicates(),
        right.no_duplicates(),
    ensures
        left.len() == right.len(),
{
    left.unique_seq_to_set();
    right.unique_seq_to_set();
    assert forall|id: Seq<char>| left.to_set().contains(id) <==> right.to_set().contains(id) by {
        assert(left.contains(id) <==> right.contains(id));
    }
    assert(left.to_set() =~= right.to_set());
}


/// A copy of a list of members.
pub fn clone_members(members: &Vec<Member>) -> (copy: Vec<Member>)
    ensures
        copy@ == members@,
{
    let mut copy: Vec<Member> = Vec::new();
    let mut i: usize = 0;
    while i < members.len()
        invariant
            i <= members.len(),
            copy@ == members@.take(i as int),
        decreases members.len() - i,
    {
        let member: &Member = &members[i];
        copy.push(
            Member {
                photo_id: member.photo_id.clone(),
                position: member.position,
                removed: member.removed,
            },
        );
        assert(members@.take(i + 1) =~= members@.take(i as int).push(members@[i as int]));
        i = i + 1;
    }
    assert(members@.take(members@.len() as int) =~= members@);
    copy
}

/// The index of a member.
pub fn index_of_member(members: &Vec<Member>, id: &String) -> (index: Option<usize>)
    ensures
        match index {
            Some(i) => first_index(member_ids(members_view(members@)), id@) == Some(i as int) && i
                < members.len(),
            None => first_index(member_ids(members_view(members@)), id@) is None,
        },
        index is Some <==> member_ids(members_view(members@)).contains(id@),
{
    let ghost ids = member_ids(members_view(members@));
    let mut i: usize = 0;
    while i < members.len()
        invariant
            i <= members.len(),
            ids == member_ids(members_view(members@)),
            forall|j: int| 0 <= j < i ==> ids[j] != id@,
        decreases members.len() - i,
    {
        assert(ids[i as int] == members@[i as int].photo_id@);
        if same_text(&members[i].photo_id, id) {
            proof {
                lemma_first_index(ids, id@, i as int);
                lemma_first_index_found(ids, id@);
            }
            return Some(i);
        }
        i = i + 1;
    }
    proof {
        lemma_first_index_absent(ids, id@);
        lemma_first_index_found(ids, id@);
    }
    None
}

/// The index of a known Photo.
pub fn index_of_photo(photos: &Vec<PhotoPresence>, id: &String) -> (index: Option<usize>)
    ensures
        match index {
            Some(i) => first_index(presence_ids(photos@), id@) == Some(i as int) && i
                < photos.len(),
            None => first_index(presence_ids(photos@), id@) is None,
        },
        index is Some <==> known(photos@, id@),
{
    let ghost ids = presence_ids(photos@);
    let mut i: usize = 0;
    while i < photos.len()
        invariant
            i <= photos.len(),
            ids == presence_ids(photos@),
            forall|j: int| 0 <= j < i ==> ids[j] != id@,
        decreases photos.len() - i,
    {
        assert(ids[i as int] == photos@[i as int].photo_id@);
        if same_text(&photos[i].photo_id, id) {
            proof {
                lemma_first_index(ids, id@, i as int);
                lemma_first_index_found(ids, id@);
            }
            return Some(i);
        }
        i = i + 1;
    }
    proof {
        lemma_first_index_absent(ids, id@);
        lemma_first_index_found(ids, id@);
    }
    None
}

/// Whether every Photo of a request is known.
pub open spec fn all_known(photos: Seq<PhotoPresence>, ids: Seq<Seq<char>>) -> bool {
    forall|i: int| 0 <= i < ids.len() ==> known(photos, #[trigger] ids[i])
}

/// The first Photo of a request that is not known.
pub open spec fn first_unknown(photos: Seq<PhotoPresence>, ids: Seq<Seq<char>>) -> Option<
    Seq<char>,
>
    decreases ids.len(),
{
    if ids.len() == 0 {
        None
    } else {
        match first_unknown(photos, ids.drop_last()) {
            Some(id) => Some(id),
            None => if known(photos, ids.last()) {
                None
            } else {
                Some(ids.last())
            },
        }
    }
}

/// Finds the first Photo of a request that is not known.
pub fn find_unknown<'a>(photos: &Vec<PhotoPresence>, ids: &'a Vec<String>) -> (unknown: Option<
    &'a String,
>)
    ensures
        match unknown {
            Some(id) => first_unknown(photos@, texts(ids@)) == Some(id@),
            None => first_unknown(photos@, texts(ids@)) is None,
        },
        unknown is None <==> all_known(photos@, texts(ids@)),
{
    let mut i: usize = 0;
    while i < ids.len()
        invariant
            i <= ids.len(),
            first_unknown(photos@, texts(ids@).take(i as int)) is None,
            forall|j: int| 0 <= j < i ==> known(photos@, #[trigger] texts(ids@)[j]),
        decreases ids.len() - i,
    {
        let ghost taken = texts(ids@).take(i + 1);
        assert(taken.drop_last() =~= texts(ids@).take(i as int));
        assert(taken.last() == ids@[i as int]@);
        if index_of_photo(photos, &ids[i]).is_none() {
            proof {
                lemma_first_unknown_extends(photos@, texts(ids@), i + 1);
                assert(!known(photos@, texts(ids@)[i as int]));
            }
            return Some(&ids[i]);
        }
        i = i + 1;
    }
    assert(texts(ids@).take(ids@.len() as int) =~= texts(ids@));
    None
}

proof fn lemma_first_unknown_extends(photos: Seq<PhotoPresence>, ids: Seq<Seq<char>>, n: int)
    requires
        0 <= n <= ids.len(),
        first_unknown(photos, ids.take(n)) is Some,
    ensures
        first_unknown(photos, ids) == first_unknown(photos, ids.take(n)),
    decreases ids.len(),
{
    if n < ids.len() {
        assert(ids.drop_last().take(n) =~= ids.take(n));
        lemma_first_unknown_extends(photos, ids.drop_last(), n);
    } else {
        assert(ids.take(n) =~= ids);
    }
}

/// How many members are shown.
pub fn count_shown(members: &Vec<Member>) -> (count: usize)
    ensures
        count == shown_count(members_view(members@)),
        count <= members.len(),
{
    let ghost all = members_view(members@);
    let mut count: usize = 0;
    let mut i: usize = 0;
    while i < members.len()
        invariant
            i <= members.len(),
            all == members_view(members@),
            count <= i,
            count == shown_count(all.take(i as int)),
        decreases members.len() - i,
    {
        assert(all.take(i + 1).drop_last() =~= all.take(i as int));
        assert(all.take(i + 1).last() == members@[i as int]@);
        if !members[i].removed {
            count = count + 1;
        }
        i = i + 1;
    }
    assert(all.take(all.len() as int) =~= all);
    count
}

fn highest_position(members: &Vec<Member>) -> (highest: i64)
    requires
        members.len() > 0,
    ensures
        highest == max_position(members_view(members@)),
{
    let ghost all = members_view(members@);
    let mut highest: i64 = members[0].position;
    let mut i: usize = 1;
    assert(all.take(1)[0] == members@[0]@);
    while i < members.len()
        invariant
            1 <= i <= members.len(),
            all == members_view(members@),
            highest == max_position(all.take(i as int)),
        decreases members.len() - i,
    {
        assert(all.take(i + 1).drop_last() =~= all.take(i as int));
        assert(all.take(i + 1).last() == members@[i as int]@);
        if members[i].position > highest {
            highest = members[i].position;
        }
        i = i + 1;
    }
    assert(all.take(all.len() as int) =~= all);
    highest
}

/// Why Photos cannot be appended: the positions ran out before the first one, or
/// after some of them.
pub open spec fn add_refusal(members: Seq<MemberView>, ids: Seq<Seq<char>>) -> Option<
    MutationError,
> {
    if next_position(members) > i64::MAX {
        Some(MutationError::Persistence)
    } else if next_position(members) + added_ids(member_ids(members), ids).len() > i64::MAX {
        Some(MutationError::Conflict)
    } else {
        None
    }
}

/// The members after a request to add Photos, which of them were new, and which
/// were members already.
pub fn extend_members(
    members: &Vec<Member>,
    photos: &Vec<PhotoPresence>,
    ids: &Vec<String>,
) -> (result: Result<(Vec<Member>, Vec<String>, Vec<String>), MutationError>)
    ensures
        match add_refusal(members_view(members@), texts(ids@)) {
            Some(error) => result == Err::<(Vec<Member>, Vec<String>, Vec<String>), MutationError>(
                error,
            ),
            None => {
                &&& result matches Ok((next, added, already))
                &&& members_view(next@) == with_members(
                    members_view(members@),
                    photos@,
                    texts(ids@),
                )
                &&& texts(added@) == added_ids(member_ids(members_view(members@)), texts(ids@))
                &&& texts(already@) == already_ids(member_ids(members_view(members@)), texts(ids@))
            },
        },
{
    let ghost before = members_view(members@);
    let ghost current = member_ids(before);
    let ghost wanted = texts(ids@);
    let mut position: i64 = 0;
    if members.len() > 0 {
        let highest: i64 = highest_position(members);
        if highest == i64::MAX {
            return Err(MutationError::Persistence);
        }
        position = highest + 1;
    }
    let mut next: Vec<Member> = clone_members(members);
    let mut added: Vec<String> = Vec::new();
    let mut already: Vec<String> = Vec::new();
    let mut i: usize = 0;
    proof {
        assert(wanted.take(0) =~= Seq::<Seq<char>>::empty());
        assert(texts(added@) =~= Seq::<Seq<char>>::empty());
        assert(texts(already@) =~= Seq::<Seq<char>>::empty());
    }
    while i < ids.len()
        invariant
            i <= ids.len(),
            before == members_view(members@),
            current == member_ids(before),
            wanted == texts(ids@),
            members_view(next@) == with_members(before, photos@, wanted.take(i as int)),
            texts(added@) == added_ids(current, wanted.take(i as int)),
            texts(already@) == already_ids(current, wanted.take(i as int)),
            position == next_position(members_view(next@)),
            position == next_position(before) + added@.len(),
            next_position(before) <= i64::MAX,
        decreases ids.len() - i,
    {
        let ghost taken = wanted.take(i + 1);
        let ghost now = members_view(next@);
        proof {
            assert(taken.drop_last() =~= wanted.take(i as int));
            assert(taken.last() == ids@[i as int]@);
            lemma_with_members_ids(before, photos@, wanted.take(i as int));
            lemma_contains_concat(current, texts(added@), ids@[i as int]@);
        }
        if index_of_member(&next, &ids[i]).is_some() {
            proof {
                lemma_texts_push(already@, ids@[i as int]);
            }
            already.push(ids[i].clone());
        } else {
            let removed: bool = match index_of_photo(photos, &ids[i]) {
                Some(at) => photos[at].removed,
                None => false,
            };
            let member: Member = Member { photo_id: ids[i].clone(), position, removed };
            proof {
                lemma_texts_push(added@, ids@[i as int]);
                lemma_next_position_push(now, member@);
                lemma_added_grows(current, wanted, i + 1);
                assert(members_view(next@.push(member)) =~= now.push(member@));
            }
            if position == i64::MAX {
                assert(next_position(before) + added_ids(current, taken).len() > i64::MAX);
                return Err(MutationError::Conflict);
            }
            next.push(member);
            added.push(ids[i].clone());
            position = position + 1;
        }
        i = i + 1;
    }
    assert(wanted.take(wanted.len() as int) =~= wanted);
    Ok((next, added, already))
}

/// The members without one Photo, with the gap closed.
pub fn drop_member(members: &Vec<Member>, id: &String) -> (next: Option<Vec<Member>>)
    ensures
        match next {
            Some(kept) => member_ids(members_view(members@)).contains(id@) && members_view(kept@)
                == without_member(members_view(members@), id@),
            None => !member_ids(members_view(members@)).contains(id@),
        },
{
    let ghost all = members_view(members@);
    match index_of_member(members, id) {
        None => None,
        Some(at) => {
            let position: i64 = members[at].position;
            let mut kept: Vec<Member> = Vec::new();
            let mut i: usize = 0;
            assert(members_view(kept@) =~= closed_up(all.take(0), id@, position as int));
            while i < members.len()
                invariant
                    i <= members.len(),
                    all == members_view(members@),
                    members_view(kept@) == closed_up(all.take(i as int), id@, position as int),
                decreases members.len() - i,
            {
                let ghost taken = all.take(i + 1);
                assert(taken.drop_last() =~= all.take(i as int));
                assert(taken.last() == members@[i as int]@);
                let member: &Member = &members[i];
                if !same_text(&member.photo_id, id) {
                    let moved: Member = Member {
                        photo_id: member.photo_id.clone(),
                        position: if member.position > position {
                            member.position - 1
                        } else {
                            member.position
                        },
                        removed: member.removed,
                    };
                    assert(members_view(kept@.push(moved)) =~= members_view(kept@).push(moved@));
                    kept.push(moved);
                }
                i = i + 1;
            }
            assert(all.take(all.len() as int) =~= all);
            Some(kept)
        },
    }
}

/// The members without the Photos of a request, which of them were members, and
/// which were not.
pub fn drop_members(members: &Vec<Member>, ids: &Vec<String>) -> (result: (
    Vec<Member>,
    Vec<String>,
    Vec<String>,
))
    ensures
        members_view(result.0@) == without_members(members_view(members@), texts(ids@)),
        texts(result.1@) == removed_ids(member_ids(members_view(members@)), texts(ids@)),
        texts(result.2@) == absent_ids(member_ids(members_view(members@)), texts(ids@)),
{
    let ghost before = members_view(members@);
    let ghost current = member_ids(before);
    let ghost wanted = texts(ids@);
    let mut next: Vec<Member> = clone_members(members);
    let mut removed: Vec<String> = Vec::new();
    let mut absent: Vec<String> = Vec::new();
    let mut i: usize = 0;
    proof {
        assert(wanted.take(0) =~= Seq::<Seq<char>>::empty());
        assert(texts(removed@) =~= Seq::<Seq<char>>::empty());
        assert(texts(absent@) =~= Seq::<Seq<char>>::empty());
    }
    while i < ids.len()
        invariant
            i <= ids.len(),
            before == members_view(members@),
            current == member_ids(before),
            wanted == texts(ids@),
            members_view(next@) == without_members(before, wanted.take(i as int)),
            texts(removed@) == removed_ids(current, wanted.take(i as int)),
            texts(absent@) == absent_ids(current, wanted.take(i as int)),
        decreases ids.len() - i,
    {
        let ghost taken = wanted.take(i + 1);
        proof {
            assert(taken.drop_last() =~= wanted.take(i as int));
            assert(taken.last() == ids@[i as int]@);
            lemma_remaining_members(before, wanted.take(i as int), ids@[i as int]@);
        }
        match drop_member(&next, &ids[i]) {
            Some(kept) => {
                proof {
                    lemma_texts_push(removed@, ids@[i as int]);
                }
                next = kept;
                removed.push(ids[i].clone());
            },
            None => {
                proof {
                    lemma_texts_push(absent@, ids@[i as int]);
                    lemma_first_index_found(member_ids(members_view(next@)), ids@[i as int]@);
                }
                absent.push(ids[i].clone());
            },
        }
        i = i + 1;
    }
    assert(wanted.take(wanted.len() as int) =~= wanted);
    (next, removed, absent)
}

/// A Photo is still a member after removals exactly when it was one and none of
/// them removed it.
pub proof fn lemma_remaining_members(
    members: Seq<MemberView>,
    ids: Seq<Seq<char>>,
    x: Seq<char>,
)
    ensures
        member_ids(without_members(members, ids)).contains(x) <==> member_ids(members).contains(x)
            && !removed_ids(member_ids(members), ids).contains(x),
    decreases ids.len(),
{
    if ids.len() > 0 {
        let front = ids.drop_last();
        let id = ids.last();
        lemma_remaining_members(members, front, x);
        lemma_remaining_members(members, front, id);
        let before = without_members(members, front);
        lemma_without_member_ids(before, id);
        lemma_ids_without_contains(member_ids(before), id, x);
        let gone = removed_ids(member_ids(members), front);
        lemma_push_contains(gone, id, x);
    }
}

/// The members in a requested order.
pub fn order_members(members: &Vec<Member>, ids: &Vec<String>) -> (next: Vec<Member>)
    requires
        ids.len() <= i64::MAX,
    ensures
        members_view(next@) == reordered(members_view(members@), texts(ids@)),
{
    let ghost goal = reordered(members_view(members@), texts(ids@));
    let mut next: Vec<Member> = Vec::new();
    let mut i: usize = 0;
    while i < ids.len()
        invariant
            i <= ids.len() <= i64::MAX,
            goal == reordered(members_view(members@), texts(ids@)),
            members_view(next@) == goal.take(i as int),
        decreases ids.len() - i,
    {
        let removed: bool = match index_of_member(members, &ids[i]) {
            Some(at) => members[at].removed,
            None => false,
        };
        let member: Member = Member { photo_id: ids[i].clone(), position: i as i64, removed };
        proof {
            assert(texts(ids@)[i as int] == ids@[i as int]@);
            assert(member@ == goal[i as int]);
            assert(members_view(next@.push(member)) =~= members_view(next@).push(member@));
            assert(goal.take(i + 1) =~= goal.take(i as int).push(goal[i as int]));
        }
        next.push(member);
        i = i + 1;
    }
    assert(goal.take(goal.len() as int) =~= goal);
    next
}

/// Whether the members stand at dense positions.
pub fn is_dense(members: &Vec<Member>) -> (answer: bool)
    ensures
        answer == dense(members_view(members@)),
{
    let ghost all = members_view(members@);
    let mut i: usize = 0;
    while i < members.len()
        invariant
            i <= members.len(),
            all == members_view(members@),
            forall|j: int| 0 <= j < i ==> (#[trigger] all[j]).position == j,
        decreases members.len() - i,
    {
        if members[i].position < 0 || members[i].position as u64 != i as u64 {
            assert(all[i as int].position != i);
            return false;
        }
        assert(all[i as int].position == i);
        i = i + 1;
    }
    true
}

/// Whether the members are exactly the Photos of a request.
pub fn members_are(members: &Vec<Member>, ids: &Vec<String>) -> (answer: bool)
    ensures
        answer == same_set(member_ids(members_view(members@)), texts(ids@)),
{
    let ghost current = member_ids(members_view(members@));
    let ghost wanted = texts(ids@);
    let mut i: usize = 0;
    while i < members.len()
        invariant
            i <= members.len(),
            current == member_ids(members_view(members@)),
            wanted == texts(ids@),
            forall|j: int| 0 <= j < i ==> wanted.contains(#[trigger] current[j]),
        decreases members.len() - i,
    {
        assert(current[i as int] == members@[i as int].photo_id@);
        if !contains_text(ids, &members[i].photo_id) {
            assert(current.contains(current[i as int]));
            return false;
        }
        i = i + 1;
    }
    let mut k: usize = 0;
    while k < ids.len()
        invariant
            k <= ids.len(),
            current == member_ids(members_view(members@)),
            wanted == texts(ids@),
            forall|j: int| 0 <= j < current.len() ==> wanted.contains(#[trigger] current[j]),
            forall|j: int| 0 <= j < k ==> current.contains(#[trigger] wanted[j]),
        decreases ids.len() - k,
    {
        assert(wanted[k as int] == ids@[k as int]@);
        if index_of_member(members, &ids[k]).is_none() {
            assert(wanted.contains(wanted[k as int]));
            return false;
        }
        k = k + 1;
    }
    assert forall|id: Seq<char>| #[trigger] current.contains(id) <==> wanted.contains(id) by {
        if current.contains(id) {
            let j = choose|j: int| 0 <= j < current.len() && current[j] == id;
            assert(wanted.contains(current[j]));
        }
        if wanted.contains(id) {
            let j = choose|j: int| 0 <= j < wanted.len() && wanted[j] == id;
            assert(current.contains(wanted[j]));
        }
    }
    true
}

/// Whether the members stand in the order of a request.
pub fn ordered_as(members: &Vec<Member>, ids: &Vec<String>) -> (answer: bool)
    ensures
        answer == (member_ids(members_view(members@)) == texts(ids@)),
{
    let ghost current = member_ids(members_view(members@));
    let ghost wanted = texts(ids@);
    if members.len() != ids.len() {
        assert(current.len() != wanted.len());
        return false;
    }
    let mut i: usize = 0;
    while i < members.len()
        invariant
            i <= members.len(),
            members.len() == ids.len(),
            current == member_ids(members_view(members@)),
            wanted == texts(ids@),
            forall|j: int| 0 <= j < i ==> current[j] == wanted[j],
        decreases members.len() - i,
    {
        assert(current[i as int] == members@[i as int].photo_id@);
        assert(wanted[i as int] == ids@[i as int]@);
        if !same_text(&members[i].photo_id, &ids[i]) {
            return false;
        }
        i = i + 1;
    }
    assert(current =~= wanted);
    true
}

/// What members are after some were added: those that there were stay in their places,
/// and the new ones follow in the order of the request.
pub proof fn lemma_new_members(
    members: Seq<MemberView>,
    photos: Seq<PhotoPresence>,
    ids: Seq<Seq<char>>,
)
    ensures
        ({
            let after = with_members(members, photos, ids);
            let added = added_ids(member_ids(members), ids);
            &&& after.len() == members.len() + added.len()
            &&& forall|m: int| 0 <= m < members.len() ==> #[trigger] after[m] == members[m]
            &&& forall|m: int|
                members.len() <= m < after.len() ==> {
                    &&& (#[trigger] after[m]).photo_id == added[m - members.len()]
                    &&& after[m].position == next_position(members) + (m - members.len())
                    &&& after[m].removed == known_removed(photos, after[m].photo_id)
                }
        }),
    decreases ids.len(),
{
    let after = with_members(members, photos, ids);
    let n = members.len() as int;
    lemma_added_queue(members, photos, ids);
    lemma_with_members_ids(members, photos, ids);
    let added = added_ids(member_ids(members), ids);
    assert(member_ids(after).len() == after.len());
    assert forall|m: int| 0 <= m < members.len() implies #[trigger] after[m] == members[m] by {
        assert(after.take(n)[m] == after[m]);
    }
    if ids.len() > 0 {
        lemma_new_members(members, photos, ids.drop_last());
    }
    assert forall|m: int| members.len() <= m < after.len() implies {
        &&& (#[trigger] after[m]).photo_id == added[m - members.len()]
        &&& after[m].position == next_position(members) + (m - members.len())
        &&& after[m].removed == known_removed(photos, after[m].photo_id)
    } by {
        assert(member_ids(after)[m] == after[m].photo_id);
        assert((member_ids(members) + added)[m] == added[m - n]);
        if ids.len() > 0 {
            let before = with_members(members, photos, ids.drop_last());
            if m < before.len() {
                assert(after[m] == before[m]);
            }
        }
    }
}

/// The Photos that a request adds keep the order of the request.
pub proof fn lemma_added_in_order(current: Seq<Seq<char>>, ids: Seq<Seq<char>>, a: int, b: int)
    requires
        0 <= a < b < added_ids(current, ids).len(),
    ensures
        exists|x: int, y: int|
            0 <= x < y < ids.len() && #[trigger] ids[x] == added_ids(current, ids)[a]
                && #[trigger] ids[y] == added_ids(current, ids)[b],
    decreases ids.len(),
{
    let front = ids.drop_last();
    let before = added_ids(current, front);
    let after = added_ids(current, ids);
    if b < before.len() {
        lemma_added_in_order(current, front, a, b);
        let (x, y) = choose|x: int, y: int|
            0 <= x < y < front.len() && #[trigger] front[x] == before[a] && #[trigger] front[y]
                == before[b];
        assert(ids[x] == front[x] && ids[y] == front[y]);
        assert(after[a] == before[a] && after[b] == before[b]);
    } else {
        law_add_partitions_the_request(current, front);
        assert(before.contains(before[a]));
        assert(front.contains(before[a]));
        let x = choose|x: int| 0 <= x < front.len() && front[x] == before[a];
        let y = ids.len() - 1;
        assert(ids[x] == after[a] && ids[y] == after[b]);
    }
}

/// What members are after one left: those before it stay, and those behind it move up by
/// one.
pub proof fn lemma_members_move_up(members: Seq<MemberView>, at: int)
    requires
        dense(members),
        member_ids(members).no_duplicates(),
        0 <= at < members.len(),
    ensures
        ({
            let after = without_member(members, members[at].photo_id);
            &&& after.len() == members.len() - 1
            &&& forall|m: int| 0 <= m < at ==> #[trigger] after[m] == members[m]
            &&& forall|m: int|
                at <= m < after.len() ==> {
                    &&& (#[trigger] after[m]).photo_id == members[m + 1].photo_id
                    &&& after[m].removed == members[m + 1].removed
                    &&& after[m].position == m
                }
        }),
{
    let ids = member_ids(members);
    let id = members[at].photo_id;
    assert(ids[at] == id);
    assert forall|j: int| 0 <= j < at implies ids[j] != id by {
        assert(ids[j] != ids[at]);
    }
    lemma_first_index(ids, id, at);
    assert(queued(members, at, at)) by {
        assert forall|i: int, j: int| 0 <= i < j < members.len() && at <= j implies (
        #[trigger] members[i]).photo_id != (#[trigger] members[j]).photo_id by {
            assert(ids[i] != ids[j]);
        }
    }
    let n = members.len() as int;
    lemma_closed_up_queue(members, at, at, n);
    assert(members.take(n) =~= members);
    let after = without_member(members, id);
    assert(after == dropped(members, at, 1).take(n - 1));
}

/// Whether a Photo was removed is what is known of it.
pub proof fn lemma_known_removed(photos: Seq<PhotoPresence>, p: int)
    requires
        0 <= p < photos.len(),
        forall|a: int, b: int|
            0 <= a < b < photos.len() ==> (#[trigger] photos[a]).photo_id@ != (
            #[trigger] photos[b]).photo_id@,
    ensures
        known_removed(photos, photos[p].photo_id@) == photos[p].removed,
        known(photos, photos[p].photo_id@),
{
    let ids = presence_ids(photos);
    assert(ids[p] == photos[p].photo_id@);
    assert forall|j: int| 0 <= j < p implies ids[j] != ids[p] by {
        assert(ids[j] == photos[j].photo_id@);
    }
    lemma_first_index(ids, ids[p], p);
    assert(ids.contains(ids[p]));
}

/// Behind members at dense positions, the next position is their number.
pub proof fn lemma_next_of_dense(members: Seq<MemberView>)
    requires
        dense(members),
    ensures
        next_position(members) == members.len(),
{
    if members.len() > 0 {
        lemma_dense_max(members);
    }
}

/// The Photo that is told as unknown is the first one of the request that is not among
/// the known ones.
pub proof fn law_the_first_unknown_photo_is_told(
    photos: Vec<PhotoPresence>,
    ids: Vec<String>,
    unknown: Option<&String>,
)
    requires
        call_ensures(find_unknown, (&photos, &ids), unknown),
    ensures
        unknown matches Some(id) ==> {
            &&& forall|p: int|
                0 <= p < photos.len() ==> (#[trigger] photos@[p]).photo_id@ != id@
            &&& exists|i: int|
                0 <= i < ids.len() && (#[trigger] ids@[i])@ == id@ && forall|j: int|
                    0 <= j < i ==> presence_ids(photos@).contains((#[trigger] ids@[j])@)
        },
        unknown is None ==> forall|i: int|
            0 <= i < ids.len() ==> exists|p: int|
                0 <= p < photos.len() && (#[trigger] photos@[p]).photo_id@ == (
                #[trigger] ids@[i])@,
{
    lemma_first_unknown_told(photos@, texts(ids@));
    match unknown {
        Some(id) => {
            assert forall|p: int| 0 <= p < photos.len() implies (#[trigger] photos@[p]).photo_id@
                != id@ by {
                assert(presence_ids(photos@).contains(presence_ids(photos@)[p]));
            }
            let i = choose|i: int|
                0 <= i < ids.len() && #[trigger] texts(ids@)[i] == id@ && forall|j: int|
                    0 <= j < i ==> known(photos@, #[trigger] texts(ids@)[j]);
            assert forall|j: int| 0 <= j < i implies presence_ids(photos@).contains(
                (#[trigger] ids@[j])@,
            ) by {
                assert(known(photos@, texts(ids@)[j]));
            }
            assert(ids@[i]@ == id@);
        },
        None => {
            assert forall|i: int| 0 <= i < ids.len() implies exists|p: int|
                0 <= p < photos.len() && (#[trigger] photos@[p]).photo_id@ == (
                #[trigger] ids@[i])@ by {
                assert(known(photos@, texts(ids@)[i]));
                let p = choose|p: int|
                    0 <= p < photos.len() && presence_ids(photos@)[p] == ids@[i]@;
                assert(photos@[p].photo_id@ == ids@[i]@);
            }
        },
    }
}

proof fn lemma_first_unknown_told(photos: Seq<PhotoPresence>, ids: Seq<Seq<char>>)
    ensures
        first_unknown(photos, ids) matches Some(id) ==> !known(photos, id) && exists|i: int|
            0 <= i < ids.len() && #[trigger] ids[i] == id && forall|j: int|
                0 <= j < i ==> known(photos, #[trigger] ids[j]),
        first_unknown(photos, ids) is None ==> forall|i: int|
            0 <= i < ids.len() ==> known(photos, #[trigger] ids[i]),
    decreases ids.len(),
{
    if ids.len() > 0 {
        let front = ids.drop_last();
        lemma_first_unknown_told(photos, front);
        assert forall|i: int| 0 <= i < front.len() implies front[i] == #[trigger] ids[i] by {}
        if let Some(id) = first_unknown(photos, front) {
            let i = choose|i: int|
                0 <= i < front.len() && #[trigger] front[i] == id && forall|j: int|
                    0 <= j < i ==> known(photos, #[trigger] front[j]);
            assert forall|j: int| 0 <= j < i implies known(photos, #[trigger] ids[j]) by {
                assert(known(photos, front[j]));
            }
            assert(ids[i] == id);
        } else if !known(photos, ids.last()) {
            let i = ids.len() - 1;
            assert forall|j: int| 0 <= j < i implies known(photos, #[trigger] ids[j]) by {
                assert(known(photos, front[j]));
            }
            assert(ids[i] == ids.last());
        } else {
            assert forall|i: int| 0 <= i < ids.len() implies known(photos, #[trigger] ids[i]) by {
                if i < front.len() {
                    assert(known(photos, front[i]));
                }
            }
        }
    }
}

} // verus!
