//! The order in which Albums are told: the oldest one first, those of one time by
//! identity.
use crate::album_state::AlbumState;
use crate::order::text_less;
use crate::sorting::{
    key_less, keys_view, law_keys_of_one_rank_stand_by_text, law_sorting_orders_every_row,
    rows_view, sort_order, sorted_rows, KeyView, SortKey,
};
use vstd::prelude::*;
use vstd::string::*;

verus! {

/// What Albums are ordered by: when one was created, and its identity.
#[derive(Clone, Debug, PartialEq, Eq)]
pub struct AlbumAge {
    pub created_at: i64,
    pub id: String,
}

/// The key of an age.
pub open spec fn age_key(age: AlbumAge) -> KeyView {
    KeyView { rank: (age.created_at - i64::MIN) as u64, texts: seq![age.id@] }
}

/// The keys of a list of ages.
pub open spec fn age_keys(ages: Seq<AlbumAge>) -> Seq<KeyView> {
    Seq::new(ages.len(), |i: int| age_key(ages[i]))
}

/// The numbers of Albums in the order in which they are told.
pub open spec fn creation_order(ages: Seq<AlbumAge>) -> Seq<int> {
    sort_order(age_keys(ages), ages.len())
}

/// Orders Albums: their numbers, that of the oldest one first.
pub fn order_by_creation(ages: &Vec<AlbumAge>) -> (order: Vec<usize>)
    ensures
        rows_view(order@) == creation_order(ages@),
        order.len() == ages.len(),
        forall|i: int| 0 <= i < order.len() ==> (#[trigger] order@[i]) < ages.len(),
{
    let ghost all = age_keys(ages@);
    let mut keys: Vec<SortKey> = Vec::new();
    let mut i: usize = 0;
    while i < ages.len()
        invariant
            i <= ages.len(),
            all == age_keys(ages@),
            keys_view(keys@) == all.take(i as int),
        decreases ages.len() - i,
    {
        let rank: u64 = (ages[i].created_at as i128 - i64::MIN as i128) as u64;
        let key: SortKey = SortKey { rank, texts: vec![ages[i].id.clone()] };
        proof {
            assert(key@.texts =~= age_key(ages@[i as int]).texts);
            assert(keys_view(keys@.push(key)) =~= keys_view(keys@).push(key@));
            assert(all.take(i + 1) =~= all.take(i as int).push(all[i as int]));
        }
        keys.push(key);
        i = i + 1;
    }
    assert(all.take(all.len() as int) =~= all);
    assert(keys.len() == keys_view(keys@).len());
    sorted_rows(&keys)
}

/// The ages of Albums.
pub open spec fn state_ages(albums: Seq<AlbumState>) -> Seq<AlbumAge> {
    Seq::new(
        albums.len(),
        |i: int| AlbumAge { created_at: albums[i].created_at, id: albums[i].id },
    )
}

/// Albums, the oldest one first.
pub open spec fn states_by_creation(albums: Seq<AlbumState>) -> Seq<AlbumState> {
    Seq::new(albums.len(), |i: int| albums[creation_order(state_ages(albums))[i]])
}

/// Orders Albums: their numbers, that of the oldest one first.
pub fn order_states(albums: &Vec<AlbumState>) -> (order: Vec<usize>)
    ensures
        rows_view(order@) == creation_order(state_ages(albums@)),
        order.len() == albums.len(),
        forall|i: int|
            0 <= i < order.len() ==> (#[trigger] order@[i]) < albums.len() && albums@[order@[i] as int]
                == states_by_creation(albums@)[i],
{
    let mut ages: Vec<AlbumAge> = Vec::new();
    let mut i: usize = 0;
    while i < albums.len()
        invariant
            i <= albums.len(),
            ages@ == state_ages(albums@).take(i as int),
        decreases albums.len() - i,
    {
        ages.push(AlbumAge { created_at: albums[i].created_at, id: albums[i].id.clone() });
        assert(ages@ =~= state_ages(albums@).take(i + 1));
        i = i + 1;
    }
    assert(ages@ =~= state_ages(albums@));
    let order: Vec<usize> = order_by_creation(&ages);
    assert forall|k: int| 0 <= k < order.len() implies (#[trigger] order@[k]) < albums.len()
        && albums@[order@[k] as int] == states_by_creation(albums@)[k] by {
        assert(rows_view(order@)[k] == order@[k]);
    }
    order
}

/// Every Album is told once, none before an older one.
pub proof fn law_older_albums_come_first(ages: Seq<AlbumAge>)
    ensures
        ({
            let order = creation_order(ages);
            &&& order.len() == ages.len()
            &&& order.no_duplicates()
            &&& forall|i: int| 0 <= i < order.len() ==> 0 <= #[trigger] order[i] < ages.len()
            &&& forall|row: int| 0 <= row < ages.len() ==> #[trigger] order.contains(row)
            &&& forall|i: int, j: int|
                0 <= i < j < order.len() ==> ages[#[trigger] order[i]].created_at
                    <= ages[#[trigger] order[j]].created_at
        }),
{
    let keys = age_keys(ages);
    let order = creation_order(ages);
    law_sorting_orders_every_row(keys, ages.len());
    assert forall|i: int, j: int| 0 <= i < j < order.len() implies ages[
        #[trigger] order[i]
    ].created_at <= ages[#[trigger] order[j]].created_at by {
        assert(keys[order[i]] == age_key(ages[order[i]]));
        assert(keys[order[j]] == age_key(ages[order[j]]));
        assert(!key_less(keys[order[j]], keys[order[i]]));
    }
}

/// Albums of one time are told by identity.
pub proof fn law_albums_of_one_time_stand_by_identity(
    ages: Vec<AlbumAge>,
    order: Vec<usize>,
    i: int,
    j: int,
)
    requires
        call_ensures(order_by_creation, (&ages,), order),
        0 <= i < j < ages.len(),
    ensures
        order.len() == ages.len(),
        order@[i] != order@[j],
        ages@[order@[i] as int].created_at <= ages@[order@[j] as int].created_at,
        ages@[order@[i] as int].created_at == ages@[order@[j] as int].created_at ==> !text_less(
            ages@[order@[j] as int].id@,
            ages@[order@[i] as int].id@,
        ),
{
    let keys = age_keys(ages@);
    law_older_albums_come_first(ages@);
    law_sorting_orders_every_row(keys, ages@.len());
    let rows = creation_order(ages@);
    assert(rows[i] == order@[i] as int);
    assert(rows[j] == order@[j] as int);
    assert(!key_less(keys[rows[j]], keys[rows[i]]));
    if ages@[rows[i]].created_at == ages@[rows[j]].created_at {
        law_keys_of_one_rank_stand_by_text(keys[rows[j]], keys[rows[i]]);
    }
}

} // verus!
