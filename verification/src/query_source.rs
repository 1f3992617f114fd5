//! The Photos that a query looks at: those of its source that are not removed.
use crate::binding::MemberEntry;
use crate::photo_state::DecisionRow;
use crate::query::{index_rows, row_of, PhotoQuerySource};
use crate::sorting::{
    key_less, keys_view, law_sorting_orders_every_row, rows_view, sort_order, sorted_rows, KeyView,
    SortKey,
};
use crate::text::same_text;
use vstd::hash_map::StringHashMap;
use vstd::prelude::*;
use vstd::string::*;

verus! {

/// The stored decision of a Photo, and whether the Photo is removed.
#[derive(Clone, Debug, PartialEq, Eq)]
pub struct QueryPhoto {
    pub decision: DecisionRow,
    pub removed: bool,
}

/// The stored decisions of the Photos that are not removed.
pub open spec fn shown_rows(photos: Seq<QueryPhoto>) -> Seq<DecisionRow>
    decreases photos.len(),
{
    if photos.len() == 0 {
        Seq::empty()
    } else if photos.last().removed {
        shown_rows(photos.drop_last())
    } else {
        shown_rows(photos.drop_last()).push(photos.last().decision)
    }
}

/// The members of one Album.
pub open spec fn own_members(members: Seq<MemberEntry>, album_id: Seq<char>) -> Seq<MemberEntry>
    decreases members.len(),
{
    if members.len() == 0 {
        Seq::empty()
    } else if members.last().album_id@ == album_id {
        own_members(members.drop_last(), album_id).push(members.last())
    } else {
        own_members(members.drop_last(), album_id)
    }
}

/// What a member is ordered by: its position.
pub open spec fn position_key(member: MemberEntry) -> KeyView {
    KeyView { rank: (member.position - i64::MIN) as u64, texts: Seq::empty() }
}

/// The keys of a list of members.
pub open spec fn position_keys(members: Seq<MemberEntry>) -> Seq<KeyView> {
    Seq::new(members.len(), |i: int| position_key(members[i]))
}

/// Members by their positions.
pub open spec fn by_position(members: Seq<MemberEntry>) -> Seq<MemberEntry> {
    Seq::new(members.len(), |i: int| members[sort_order(position_keys(members), members.len())[i]])
}

/// The stored decisions of members, in their order. A member without one is left
/// out.
pub open spec fn member_rows(members: Seq<MemberEntry>, rows: Seq<DecisionRow>) -> Seq<DecisionRow>
    decreases members.len(),
{
    if members.len() == 0 {
        Seq::empty()
    } else {
        let before = member_rows(members.drop_last(), rows);
        match row_of(rows, members.last().photo_id@) {
            Some(row) => before.push(row),
            None => before,
        }
    }
}

/// The stored decisions that a query of a source looks at: those of the Photos that
/// are not removed, of an Album those of its members by their positions. A folder is
/// told by the paths of the candidates.
pub open spec fn source_rows(
    source: PhotoQuerySource,
    photos: Seq<QueryPhoto>,
    members: Seq<MemberEntry>,
) -> Seq<DecisionRow> {
    match source {
        PhotoQuerySource::Album(album_id) => member_rows(
            by_position(own_members(members, album_id@)),
            shown_rows(photos),
        ),
        _ => shown_rows(photos),
    }
}

/// Whether a Photo is stored and not removed.
pub open spec fn is_shown(photos: Seq<QueryPhoto>, id: Seq<char>) -> bool {
    exists|i: int|
        0 <= i < photos.len() && (#[trigger] photos[i]).decision.photo_id@ == id
            && !photos[i].removed
}

/// Whether a Photo is a member of an Album.
pub open spec fn is_member(
    members: Seq<MemberEntry>,
    album_id: Seq<char>,
    id: Seq<char>,
) -> bool {
    exists|i: int|
        0 <= i < members.len() && (#[trigger] members[i]).album_id@ == album_id
            && members[i].photo_id@ == id
}

/// Whether a Photo is a member of an Album.
pub fn has_member(members: &Vec<MemberEntry>, album_id: &String, id: &String) -> (answer: bool)
    ensures
        answer == is_member(members@, album_id@, id@),
{
    let mut i: usize = 0;
    while i < members.len()
        invariant
            i <= members.len(),
            forall|j: int|
                0 <= j < i ==> !((#[trigger] members@[j]).album_id@ == album_id@
                    && members@[j].photo_id@ == id@),
        decreases members.len() - i,
    {
        if same_text(&members[i].album_id, album_id) && same_text(&members[i].photo_id, id) {
            assert(members@[i as int].album_id@ == album_id@);
            return true;
        }
        i = i + 1;
    }
    false
}

/// Whether a Photo lies in a source as far as Albums go.
pub open spec fn in_source(
    source: PhotoQuerySource,
    members: Seq<MemberEntry>,
    id: Seq<char>,
) -> bool {
    source matches PhotoQuerySource::Album(album_id) ==> is_member(members, album_id@, id)
}

/// Whether rows stand in the order of the positions of an Album's members.
pub open spec fn rows_ascend(
    rows: Seq<DecisionRow>,
    members: Seq<MemberEntry>,
    album_id: Seq<char>,
) -> bool {
    exists|places: Seq<int>| #[trigger] places_ascend(rows, members, album_id, places)
}

/// Whether rows are those of an Album's members at different places, which ascend by
/// position.
pub open spec fn places_ascend(
    rows: Seq<DecisionRow>,
    members: Seq<MemberEntry>,
    album_id: Seq<char>,
    places: Seq<int>,
) -> bool {
    &&& places.len() == rows.len()
    &&& places.no_duplicates()
    &&& forall|i: int|
        0 <= i < places.len() ==> {
            &&& 0 <= (#[trigger] places[i]) < members.len()
            &&& members[places[i]].album_id@ == album_id
            &&& members[places[i]].photo_id@ == rows[i].photo_id@
        }
    &&& forall|i: int, j: int|
        0 <= i < j < places.len() ==> members[#[trigger] places[i]].position
            <= members[#[trigger] places[j]].position
}

fn copy_row(row: &DecisionRow) -> (copy: DecisionRow)
    ensures
        copy == *row,
{
    DecisionRow {
        photo_id: row.photo_id.clone(),
        selection: row.selection.clone(),
        rating: row.rating,
    }
}

fn collect_shown(photos: &Vec<QueryPhoto>) -> (rows: Vec<DecisionRow>)
    ensures
        rows@ == shown_rows(photos@),
{
    let mut rows: Vec<DecisionRow> = Vec::new();
    let mut i: usize = 0;
    assert(rows@ =~= shown_rows(photos@.take(0)));
    while i < photos.len()
        invariant
            i <= photos.len(),
            rows@ == shown_rows(photos@.take(i as int)),
        decreases photos.len() - i,
    {
        assert(photos@.take(i + 1).drop_last() =~= photos@.take(i as int));
        assert(photos@.take(i + 1).last() == photos@[i as int]);
        if !photos[i].removed {
            rows.push(copy_row(&photos[i].decision));
        }
        i = i + 1;
    }
    assert(photos@.take(photos@.len() as int) =~= photos@);
    rows
}

fn collect_own(members: &Vec<MemberEntry>, album_id: &String) -> (own: Vec<MemberEntry>)
    ensures
        own@ == own_members(members@, album_id@),
{
    let mut own: Vec<MemberEntry> = Vec::new();
    let mut i: usize = 0;
    assert(own@ =~= own_members(members@.take(0), album_id@));
    while i < members.len()
        invariant
            i <= members.len(),
            own@ == own_members(members@.take(i as int), album_id@),
        decreases members.len() - i,
    {
        assert(members@.take(i + 1).drop_last() =~= members@.take(i as int));
        assert(members@.take(i + 1).last() == members@[i as int]);
        if same_text(&members[i].album_id, album_id) {
            own.push(
                MemberEntry {
                    album_id: members[i].album_id.clone(),
                    photo_id: members[i].photo_id.clone(),
                    position: members[i].position,
                },
            );
        }
        i = i + 1;
    }
    assert(members@.take(members@.len() as int) =~= members@);
    own
}

fn order_by_position(members: &Vec<MemberEntry>) -> (order: Vec<usize>)
    ensures
        rows_view(order@) == sort_order(position_keys(members@), members@.len()),
        order.len() == members.len(),
        forall|i: int| 0 <= i < order.len() ==> (#[trigger] order@[i]) < members.len(),
{
    let ghost all = position_keys(members@);
    let mut keys: Vec<SortKey> = Vec::new();
    let mut i: usize = 0;
    while i < members.len()
        invariant
            i <= members.len(),
            all == position_keys(members@),
            keys_view(keys@) == all.take(i as int),
        decreases members.len() - i,
    {
        let rank: u64 = (members[i].position as i128 - i64::MIN as i128) as u64;
        let key: SortKey = SortKey { rank, texts: Vec::new() };
        proof {
            assert(key@.texts =~= position_key(members@[i as int]).texts);
            assert(keys_view(keys@.push(key)) =~= keys_view(keys@).push(key@));
            assert(all.take(i + 1) =~= all.take(i as int).push(all[i as int]));
        }
        keys.push(key);
        i = i + 1;
    }
    assert(all.take(all.len() as int) =~= all);
    assert(keys.len() == keys_view(keys@).len());
    sorted_rows(&keys)
}

fn collect_member_rows(members: &Vec<MemberEntry>, rows: &Vec<DecisionRow>) -> (list: Vec<
    DecisionRow,
>)
    ensures
        list@ == member_rows(by_position(members@), rows@),
{
    let order: Vec<usize> = order_by_position(members);
    let index: StringHashMap<usize> = index_rows(rows);
    let ghost sorted = by_position(members@);
    let mut list: Vec<DecisionRow> = Vec::new();
    let mut i: usize = 0;
    assert(list@ =~= member_rows(sorted.take(0), rows@));
    while i < order.len()
        invariant
            i <= order.len(),
            order.len() == members.len(),
            sorted == by_position(members@),
            rows_view(order@) == sort_order(position_keys(members@), members@.len()),
            forall|j: int| 0 <= j < order.len() ==> (#[trigger] order@[j]) < members.len(),
            forall|id: Seq<char>| #[trigger]
                index@.contains_key(id) <==> row_of(rows@, id) is Some,
            forall|id: Seq<char>| #[trigger]
                index@.contains_key(id) ==> index@[id] < rows.len() && row_of(rows@, id) == Some(
                    rows@[index@[id] as int],
                ),
            list@ == member_rows(sorted.take(i as int), rows@),
        decreases order.len() - i,
    {
        proof {
            assert(sorted.take(i + 1).drop_last() =~= sorted.take(i as int));
            assert(rows_view(order@)[i as int] == order@[i as int]);
            assert(sorted.take(i + 1).last() == members@[order@[i as int] as int]);
        }
        match index.get(members[order[i]].photo_id.as_str()) {
            Some(found) => {
                list.push(copy_row(&rows[*found]));
            },
            None => {},
        }
        i = i + 1;
    }
    assert(sorted.take(order@.len() as int) =~= sorted);
    list
}

/// The stored decisions that a query of a source looks at. There is one of a Photo
/// exactly when the Photo is not removed and lies in the source; those of an Album
/// ascend by the positions of its members.
pub fn query_rows(
    source: &PhotoQuerySource,
    photos: &Vec<QueryPhoto>,
    members: &Vec<MemberEntry>,
) -> (rows: Vec<DecisionRow>)
    ensures
        rows@ == source_rows(*source, photos@, members@),
        forall|id: Seq<char>| #[trigger]
            row_of(rows@, id) is Some <==> is_shown(photos@, id) && in_source(
                *source,
                members@,
                id,
            ),
        *source matches PhotoQuerySource::Album(album_id) ==> rows_ascend(
            rows@,
            members@,
            album_id@,
        ),
{
    proof {
        assert forall|id: Seq<char>| #[trigger]
            row_of(source_rows(*source, photos@, members@), id) is Some <==> is_shown(photos@, id)
                && in_source(*source, members@, id) by {
            law_rows_are_those_of_the_source(*source, photos@, members@, id);
        }
        law_album_rows_ascend(*source, photos@, members@);
    }
    let shown: Vec<DecisionRow> = collect_shown(photos);
    match source {
        PhotoQuerySource::Album(album_id) => {
            let own: Vec<MemberEntry> = collect_own(members, album_id);
            collect_member_rows(&own, &shown)
        },
        _ => shown,
    }
}

proof fn lemma_shown_row(photos: Seq<QueryPhoto>, id: Seq<char>)
    ensures
        row_of(shown_rows(photos), id) is Some <==> is_shown(photos, id),
        row_of(shown_rows(photos), id) matches Some(row) ==> row.photo_id@ == id,
    decreases photos.len(),
{
    if photos.len() > 0 {
        let front = photos.drop_last();
        let last = photos.last();
        lemma_shown_row(front, id);
        if is_shown(front, id) {
            let i = choose|i: int|
                0 <= i < front.len() && (#[trigger] front[i]).decision.photo_id@ == id
                    && !front[i].removed;
            assert(photos[i] == front[i]);
        }
        if is_shown(photos, id) && !is_shown(front, id) {
            let i = choose|i: int|
                0 <= i < photos.len() && (#[trigger] photos[i]).decision.photo_id@ == id
                    && !photos[i].removed;
            if i < front.len() {
                assert(front[i] == photos[i]);
            }
        }
        if !last.removed {
            assert(photos[photos.len() - 1] == last);
            let rows = shown_rows(front).push(last.decision);
            assert(rows.drop_last() =~= shown_rows(front));
        }
    }
}

/// Where the own members of an Album stand among all members.
spec fn own_places(members: Seq<MemberEntry>, album_id: Seq<char>) -> Seq<int>
    decreases members.len(),
{
    if members.len() == 0 {
        Seq::empty()
    } else if members.last().album_id@ == album_id {
        own_places(members.drop_last(), album_id).push(members.len() - 1)
    } else {
        own_places(members.drop_last(), album_id)
    }
}

proof fn lemma_own_places(members: Seq<MemberEntry>, album_id: Seq<char>)
    ensures
        ({
            let places = own_places(members, album_id);
            let own = own_members(members, album_id);
            &&& places.len() == own.len()
            &&& places.no_duplicates()
            &&& forall|i: int|
                0 <= i < places.len() ==> {
                    &&& 0 <= (#[trigger] places[i]) < members.len()
                    &&& members[places[i]] == own[i]
                    &&& own[i].album_id@ == album_id
                }
            &&& forall|k: int|
                0 <= k < members.len() && (#[trigger] members[k]).album_id@ == album_id
                    ==> places.contains(k)
        }),
    decreases members.len(),
{
    if members.len() > 0 {
        let front = members.drop_last();
        lemma_own_places(front, album_id);
        let before = own_places(front, album_id);
        let places = own_places(members, album_id);
        let own = own_members(members, album_id);
        assert forall|i: int| 0 <= i < places.len() implies {
            &&& 0 <= (#[trigger] places[i]) < members.len()
            &&& members[places[i]] == own[i]
            &&& own[i].album_id@ == album_id
        } by {
            if i < before.len() {
                assert(places[i] == before[i]);
                assert(members[before[i]] == front[before[i]]);
            }
        }
        assert forall|k: int|
            0 <= k < members.len() && (#[trigger] members[k]).album_id@
                == album_id implies places.contains(k) by {
            if k < front.len() {
                assert(front[k] == members[k]);
                assert(before.contains(k));
                let i = choose|i: int| 0 <= i < before.len() && before[i] == k;
                assert(places[i] == k);
            } else {
                assert(places[places.len() - 1] == k);
            }
        }
    }
}

proof fn lemma_member_row(members: Seq<MemberEntry>, rows: Seq<DecisionRow>, id: Seq<char>)
    requires
        forall|x: Seq<char>| #[trigger] row_of(rows, x) matches Some(row) ==> row.photo_id@ == x,
    ensures
        row_of(member_rows(members, rows), id) is Some <==> row_of(rows, id) is Some && exists|i: int|
            0 <= i < members.len() && (#[trigger] members[i]).photo_id@ == id,
    decreases members.len(),
{
    if members.len() > 0 {
        let front = members.drop_last();
        let last = members.last();
        lemma_member_row(front, rows, id);
        let before = member_rows(front, rows);
        if exists|i: int| 0 <= i < front.len() && (#[trigger] front[i]).photo_id@ == id {
            let i = choose|i: int| 0 <= i < front.len() && (#[trigger] front[i]).photo_id@ == id;
            assert(members[i] == front[i]);
        }
        if exists|i: int| 0 <= i < members.len() && (#[trigger] members[i]).photo_id@ == id {
            let i = choose|i: int|
                0 <= i < members.len() && (#[trigger] members[i]).photo_id@ == id;
            if i < front.len() {
                assert(front[i] == members[i]);
            }
        }
        assert(members[members.len() - 1] == last);
        if let Some(row) = row_of(rows, last.photo_id@) {
            assert(before.push(row).drop_last() =~= before);
        }
    }
}

/// A query looks at the stored decision of a Photo exactly when the Photo is not
/// removed and lies in the source of the query.
pub proof fn law_rows_are_those_of_the_source(
    source: PhotoQuerySource,
    photos: Seq<QueryPhoto>,
    members: Seq<MemberEntry>,
    id: Seq<char>,
)
    ensures
        row_of(source_rows(source, photos, members), id) is Some <==> is_shown(photos, id)
            && in_source(source, members, id),
{
    lemma_shown_row(photos, id);
    if let PhotoQuerySource::Album(album) = source {
        let album_id = album@;
        let own = own_members(members, album_id);
        let sorted = by_position(own);
        let shown = shown_rows(photos);
        let keys = position_keys(own);
        let order = sort_order(keys, own.len());
        let places = own_places(members, album_id);
        assert forall|x: Seq<char>| #[trigger] row_of(shown, x) matches Some(row) ==> row.photo_id@
            == x by {
            lemma_shown_row(photos, x);
        }
        lemma_member_row(sorted, shown, id);
        lemma_own_places(members, album_id);
        law_sorting_orders_every_row(keys, own.len());
        if is_member(members, album_id, id) {
            let k = choose|k: int|
                0 <= k < members.len() && (#[trigger] members[k]).album_id@ == album_id
                    && members[k].photo_id@ == id;
            assert(places.contains(k));
            let i = choose|i: int| 0 <= i < places.len() && places[i] == k;
            assert(order.contains(i));
            let j = choose|j: int| 0 <= j < order.len() && order[j] == i;
            assert(sorted[j].photo_id@ == id);
        }
        if exists|j: int| 0 <= j < sorted.len() && (#[trigger] sorted[j]).photo_id@ == id {
            let j = choose|j: int|
                0 <= j < sorted.len() && (#[trigger] sorted[j]).photo_id@ == id;
            assert(0 <= order[j] < own.len());
            assert(members[places[order[j]]].photo_id@ == id);
        }
    }
}

/// Where the members that have a row stand.
spec fn row_places(members: Seq<MemberEntry>, rows: Seq<DecisionRow>) -> Seq<int>
    decreases members.len(),
{
    if members.len() == 0 {
        Seq::empty()
    } else {
        let before = row_places(members.drop_last(), rows);
        if row_of(rows, members.last().photo_id@) is Some {
            before.push(members.len() - 1)
        } else {
            before
        }
    }
}

proof fn lemma_row_places(members: Seq<MemberEntry>, rows: Seq<DecisionRow>)
    requires
        forall|x: Seq<char>| #[trigger] row_of(rows, x) matches Some(row) ==> row.photo_id@ == x,
    ensures
        ({
            let places = row_places(members, rows);
            let list = member_rows(members, rows);
            &&& places.len() == list.len()
            &&& forall|i: int|
                0 <= i < places.len() ==> {
                    &&& 0 <= (#[trigger] places[i]) < members.len()
                    &&& members[places[i]].photo_id@ == list[i].photo_id@
                }
            &&& forall|i: int, j: int| 0 <= i < j < places.len() ==> places[i] < places[j]
        }),
    decreases members.len(),
{
    if members.len() > 0 {
        let front = members.drop_last();
        lemma_row_places(front, rows);
        let before = row_places(front, rows);
        let places = row_places(members, rows);
        let list = member_rows(members, rows);
        assert forall|i: int| 0 <= i < places.len() implies {
            &&& 0 <= (#[trigger] places[i]) < members.len()
            &&& members[places[i]].photo_id@ == list[i].photo_id@
        } by {
            if i < before.len() {
                assert(places[i] == before[i]);
                assert(members[before[i]] == front[before[i]]);
            }
        }
    }
}

/// The stored decisions that a query of an Album looks at ascend by the positions of
/// the Album's members.
pub proof fn law_album_rows_ascend(
    source: PhotoQuerySource,
    photos: Seq<QueryPhoto>,
    members: Seq<MemberEntry>,
)
    ensures
        source matches PhotoQuerySource::Album(album_id) ==> rows_ascend(
            source_rows(source, photos, members),
            members,
            album_id@,
        ),
{
    if let PhotoQuerySource::Album(album) = source {
        let album_id = album@;
        let own = own_members(members, album_id);
        let sorted = by_position(own);
        let shown = shown_rows(photos);
        let keys = position_keys(own);
        let order = sort_order(keys, own.len());
        let inner = own_places(members, album_id);
        let outer = row_places(sorted, shown);
        let rows = member_rows(sorted, shown);
        assert forall|x: Seq<char>| #[trigger] row_of(shown, x) matches Some(row) ==> row.photo_id@
            == x by {
            lemma_shown_row(photos, x);
        }
        lemma_row_places(sorted, shown);
        lemma_own_places(members, album_id);
        law_sorting_orders_every_row(keys, own.len());
        let places = Seq::new(outer.len(), |i: int| inner[order[outer[i]]]);
        assert forall|i: int| 0 <= i < places.len() implies {
            &&& 0 <= (#[trigger] places[i]) < members.len()
            &&& members[places[i]].album_id@ == album_id
            &&& members[places[i]].photo_id@ == rows[i].photo_id@
        } by {
            assert(0 <= order[outer[i]] < own.len());
            assert(sorted[outer[i]] == own[order[outer[i]]]);
        }
        assert forall|i: int, j: int| 0 <= i < j < places.len() implies members[
            #[trigger] places[i]
        ].position <= members[#[trigger] places[j]].position && places[i] != places[j] by {
            let a = order[outer[i]];
            let b = order[outer[j]];
            assert(outer[i] < outer[j]);
            assert(0 <= a < own.len() && 0 <= b < own.len());
            assert(keys[a] == position_key(own[a]));
            assert(keys[b] == position_key(own[b]));
            assert(!key_less(keys[b], keys[a]));
            assert(members[inner[a]] == own[a] && members[inner[b]] == own[b]);
        }
        assert(places_ascend(rows, members, album_id, places));
    }
}

/// Whether a decision is that of a stored Photo that is not removed.
pub open spec fn stored_and_shown(photos: Seq<QueryPhoto>, row: DecisionRow) -> bool {
    exists|i: int|
        0 <= i < photos.len() && (#[trigger] photos[i]).decision == row && !photos[i].removed
}

proof fn lemma_shown_stored(photos: Seq<QueryPhoto>)
    ensures
        forall|r: int|
            0 <= r < shown_rows(photos).len() ==> stored_and_shown(
                photos,
                #[trigger] shown_rows(photos)[r],
            ),
    decreases photos.len(),
{
    if photos.len() > 0 {
        let front = photos.drop_last();
        lemma_shown_stored(front);
        let rows = shown_rows(photos);
        assert forall|r: int| 0 <= r < rows.len() implies stored_and_shown(
            photos,
            #[trigger] rows[r],
        ) by {
            if r < shown_rows(front).len() {
                assert(stored_and_shown(front, shown_rows(front)[r]));
                let i = choose|i: int|
                    0 <= i < front.len() && (#[trigger] front[i]).decision == shown_rows(front)[r]
                        && !front[i].removed;
                assert(photos[i] == front[i]);
            } else {
                assert(photos[photos.len() - 1].decision == rows[r]);
            }
        }
    }
}

proof fn lemma_row_of_stored(photos: Seq<QueryPhoto>, rows: Seq<DecisionRow>, id: Seq<char>)
    requires
        forall|r: int| 0 <= r < rows.len() ==> stored_and_shown(photos, #[trigger] rows[r]),
    ensures
        row_of(rows, id) matches Some(row) ==> stored_and_shown(photos, row),
    decreases rows.len(),
{
    if rows.len() > 0 {
        assert(stored_and_shown(photos, rows[rows.len() - 1]));
        let front = rows.drop_last();
        assert forall|r: int| 0 <= r < front.len() implies stored_and_shown(
            photos,
            #[trigger] front[r],
        ) by {
            assert(front[r] == rows[r]);
        }
        lemma_row_of_stored(photos, front, id);
    }
}

proof fn lemma_member_rows_stored(
    photos: Seq<QueryPhoto>,
    members: Seq<MemberEntry>,
    rows: Seq<DecisionRow>,
)
    requires
        forall|r: int| 0 <= r < rows.len() ==> stored_and_shown(photos, #[trigger] rows[r]),
    ensures
        forall|r: int|
            0 <= r < member_rows(members, rows).len() ==> stored_and_shown(
                photos,
                #[trigger] member_rows(members, rows)[r],
            ),
    decreases members.len(),
{
    if members.len() > 0 {
        let front = members.drop_last();
        lemma_member_rows_stored(photos, front, rows);
        lemma_row_of_stored(photos, rows, members.last().photo_id@);
        let list = member_rows(members, rows);
        let before = member_rows(front, rows);
        assert forall|r: int| 0 <= r < list.len() implies stored_and_shown(
            photos,
            #[trigger] list[r],
        ) by {
            if r < before.len() {
                assert(list[r] == before[r]);
            }
        }
    }
}

/// Every decision that a query looks at is the stored one of a Photo that is not
/// removed.
pub proof fn law_rows_are_stored(
    source: PhotoQuerySource,
    photos: Seq<QueryPhoto>,
    members: Seq<MemberEntry>,
)
    ensures
        forall|r: int|
            0 <= r < source_rows(source, photos, members).len() ==> stored_and_shown(
                photos,
                #[trigger] source_rows(source, photos, members)[r],
            ),
{
    lemma_shown_stored(photos);
    if let PhotoQuerySource::Album(album) = source {
        lemma_member_rows_stored(
            photos,
            by_position(own_members(members, album@)),
            shown_rows(photos),
        );
    }
}

} // verus!
