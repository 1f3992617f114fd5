//! Queries of Photos and of Albums: which identities a query fixes, in which
//! order, and when it is refused.
use crate::album::{law_names_differ_in_case_alone, same_stored_name, stored_name};
use crate::album_order::{
    creation_order, law_older_albums_come_first, order_by_creation, AlbumAge,
};
use crate::binding::{AlbumEntry, MemberEntry};
use crate::capture_bound::CaptureTimeBound;
use crate::codec::{
    parse_selection_state, selection_of, CaptureFact, OriginalKind, PreviewState, SelectionState,
};
use crate::limits::MAXIMUM_PHOTO_RATING;
use crate::order::{
    comes_before, law_order_is_asymmetric, law_order_is_irreflexive, text_less,
};
use crate::path::{folder_location, in_folder, path_in_folder, valid_folder_location};
use crate::photo_state::DecisionRow;
use crate::query_source::{
    has_member, in_source, is_member, is_shown, law_album_rows_ascend, law_rows_are_stored,
    law_rows_are_those_of_the_source, places_ascend, query_rows, source_rows, QueryPhoto,
};
use crate::sorting::rows_view;
use crate::text::{lemma_texts_push, texts};
use vstd::hash_map::StringHashMap;
use vstd::prelude::*;
use vstd::string::*;

verus! {

/// Where a query looks for Photos.
#[derive(Clone, Debug, PartialEq, Eq)]
pub enum PhotoQuerySource {
    AllPhotos,
    Folder(String),
    Album(String),
}

/// The order of a query's result.
#[derive(Clone, Copy, Debug, PartialEq, Eq, Structural)]
pub enum PhotoQueryOrder {
    CaptureTimeAscending,
    CaptureTimeDescending,
    AlbumOrder,
}

/// What a query asks for.
#[derive(Clone, Debug, PartialEq, Eq)]
pub struct PhotoQuery {
    pub source: PhotoQuerySource,
    pub selection_state: Option<SelectionState>,
    pub rating_minimum: Option<u8>,
    pub rating_maximum: Option<u8>,
    pub original_kind: Option<OriginalKind>,
    pub original_available: Option<bool>,
    pub captured_from: Option<CaptureTimeBound>,
    pub captured_before: Option<CaptureTimeBound>,
    pub order: PhotoQueryOrder,
}

/// Why a query has no result.
#[derive(Clone, Copy, Debug, PartialEq, Eq, Structural)]
pub enum PhotoQueryError {
    Invalid,
    SourceNotFound,
    ResultLimitExceeded { limit: usize },
    Storage,
}

/// What a scan published of a Photo.
#[derive(Clone, Debug, PartialEq, Eq)]
pub struct PhotoQueryCandidate {
    pub photo_id: String,
    pub relative_path: String,
    pub sort_path: String,
    pub original_kind: OriginalKind,
    pub original_available: bool,
    pub capture: CaptureFact,
    pub preview_state: PreviewState,
    pub preview_source_revision: Option<String>,
    pub preview_width: Option<u32>,
    pub preview_height: Option<u32>,
}

/// What a scan published of all Photos: the candidates in ascending order, the
/// same in descending order by index, and where each Photo stands.
pub struct PhotoQueryProjection {
    pub candidates: Vec<PhotoQueryCandidate>,
    pub descending: Vec<usize>,
    pub index: StringHashMap<usize>,
}

/// Whether a list of numbers is a rearrangement of the indices below a bound.
pub open spec fn rearranges(list: Seq<usize>, bound: nat) -> bool {
    &&& list.len() == bound
    &&& forall|i: int| 0 <= i < list.len() ==> (#[trigger] list[i]) < bound
    &&& list.no_duplicates()
}

/// The Photos of a list of candidates.
pub open spec fn candidate_ids(candidates: Seq<PhotoQueryCandidate>) -> Seq<Seq<char>> {
    Seq::new(candidates.len(), |i: int| candidates[i].photo_id@)
}

impl PhotoQueryProjection {
    /// Whether the two orders and the index agree.
    pub open spec fn wf(&self) -> bool {
        &&& rearranges(self.descending@, self.candidates@.len())
        &&& forall|i: int|
            0 <= i < self.candidates@.len() ==> self.index@.contains_key(
                (#[trigger] self.candidates@[i]).photo_id@,
            ) && self.index@[self.candidates@[i].photo_id@] == i
        &&& forall|id: Seq<char>| #[trigger]
            self.index@.contains_key(id) ==> self.index@[id] < self.candidates@.len()
                && self.candidates@[self.index@[id] as int].photo_id@ == id
    }

    /// Publishes candidates in ascending order together with their descending
    /// order. A Photo that occurs twice, or a descending order that is no
    /// rearrangement of the ascending one, is refused.
    pub fn new(candidates: Vec<PhotoQueryCandidate>, descending: Vec<usize>) -> (projection: Option<
        PhotoQueryProjection,
    >)
        ensures
            projection is Some <==> candidate_ids(candidates@).no_duplicates() && rearranges(
                descending@,
                candidates@.len(),
            ),
            projection is Some ==> projection->0.wf() && projection->0.candidates@ == candidates@
                && projection->0.descending@ == descending@,
    {
        let ghost ids = candidate_ids(candidates@);
        let mut index: StringHashMap<usize> = StringHashMap::new();
        let mut i: usize = 0;
        while i < candidates.len()
            invariant
                i <= candidates.len(),
                ids == candidate_ids(candidates@),
                forall|a: int, b: int| 0 <= a < b < i ==> ids[a] != ids[b],
                forall|j: int|
                    0 <= j < i ==> index@.contains_key((#[trigger] candidates@[j]).photo_id@)
                        && index@[candidates@[j].photo_id@] == j,
                forall|id: Seq<char>| #[trigger]
                    index@.contains_key(id) ==> index@[id] < i
                        && candidates@[index@[id] as int].photo_id@ == id,
            decreases candidates.len() - i,
        {
            if index.contains_key(candidates[i].photo_id.as_str()) {
                proof {
                    let j = index@[candidates@[i as int].photo_id@] as int;
                    assert(ids[j] == ids[i as int]);
                }
                return None;
            }
            assert forall|a: int| 0 <= a < i implies ids[a] != ids[i as int] by {
                assert(index@.contains_key(candidates@[a].photo_id@));
            }
            index.insert(candidates[i].photo_id.clone(), i);
            i = i + 1;
        }
        assert(ids.no_duplicates());
        if descending.len() != candidates.len() {
            return None;
        }
        let mut k: usize = 0;
        while k < descending.len()
            invariant
                k <= descending.len(),
                descending.len() == candidates.len(),
                forall|j: int| 0 <= j < k ==> (#[trigger] descending@[j]) < candidates.len(),
                forall|a: int, b: int| 0 <= a < b < k ==> descending@[a] != descending@[b],
            decreases descending.len() - k,
        {
            if descending[k] >= candidates.len() {
                assert(!(descending@[k as int] < candidates@.len()));
                return None;
            }
            let mut j: usize = 0;
            while j < k
                invariant
                    j <= k < descending.len(),
                    forall|a: int| 0 <= a < j ==> descending@[a] != descending@[k as int],
                decreases k - j,
            {
                if descending[j] == descending[k] {
                    return None;
                }
                j = j + 1;
            }
            k = k + 1;
        }
        Some(PhotoQueryProjection { candidates, descending, index })
    }

    /// The candidate of a Photo.
    pub fn get(&self, photo_id: &str) -> (candidate: Option<&PhotoQueryCandidate>)
        requires
            self.wf(),
        ensures
            match candidate {
                Some(found) => self.index@.contains_key(photo_id@) && *found
                    == self.candidates@[self.index@[photo_id@] as int],
                None => !self.index@.contains_key(photo_id@),
            },
    {
        match self.index.get(photo_id) {
            Some(i) => Some(&self.candidates[*i]),
            None => None,
        }
    }
}

/// Whether a capture time is not before a bound.
pub open spec fn captured_from(key: Option<String>, bound: Option<CaptureTimeBound>) -> bool {
    bound is Some ==> key is Some && !text_less(key->0@, bound->0.text@)
}

/// Whether a capture time is before a bound.
pub open spec fn captured_before(key: Option<String>, bound: Option<CaptureTimeBound>) -> bool {
    bound is Some ==> key is Some && text_less(key->0@, bound->0.text@)
}

/// Whether a candidate with its current decision is what a query asks for.
pub open spec fn candidate_fits(
    query: PhotoQuery,
    candidate: PhotoQueryCandidate,
    selection_state: SelectionState,
    rating: u8,
) -> bool {
    &&& query.selection_state is Some ==> selection_state == query.selection_state->0
    &&& query.rating_minimum is Some ==> rating >= query.rating_minimum->0
    &&& query.rating_maximum is Some ==> rating <= query.rating_maximum->0
    &&& query.original_kind is Some ==> candidate.original_kind == query.original_kind->0
    &&& query.original_available is Some ==> candidate.original_available
        == query.original_available->0
    &&& captured_from(candidate.capture.order_key, query.captured_from)
    &&& captured_before(candidate.capture.order_key, query.captured_before)
}

/// Whether a candidate lies in a folder.
pub fn candidate_in_folder(candidate: &PhotoQueryCandidate, location: &String) -> (answer: bool)
    ensures
        answer == in_folder(candidate.relative_path@, location@),
{
    path_in_folder(&candidate.relative_path, location)
}

/// Whether a candidate with its current decision is what a query asks for.
pub fn candidate_matches(
    query: &PhotoQuery,
    candidate: &PhotoQueryCandidate,
    selection_state: SelectionState,
    rating: u8,
) -> (answer: bool)
    ensures
        answer == candidate_fits(*query, *candidate, selection_state, rating),
{
    match query.selection_state {
        Some(expected) => {
            if selection_state != expected {
                return false;
            }
        },
        None => {},
    }
    match query.rating_minimum {
        Some(minimum) => {
            if rating < minimum {
                return false;
            }
        },
        None => {},
    }
    match query.rating_maximum {
        Some(maximum) => {
            if rating > maximum {
                return false;
            }
        },
        None => {},
    }
    match query.original_kind {
        Some(kind) => {
            if candidate.original_kind != kind {
                return false;
            }
        },
        None => {},
    }
    match query.original_available {
        Some(available) => {
            if candidate.original_available != available {
                return false;
            }
        },
        None => {},
    }
    match &query.captured_from {
        Some(from) => match &candidate.capture.order_key {
            Some(key) => {
                if comes_before(key, &from.text) {
                    return false;
                }
            },
            None => {
                return false;
            },
        },
        None => {},
    }
    match &query.captured_before {
        Some(before) => match &candidate.capture.order_key {
            Some(key) => {
                if !comes_before(key, &before.text) {
                    return false;
                }
            },
            None => {
                return false;
            },
        },
        None => {},
    }
    true
}

/// What storing one more match does: the match comes last, and more matches than were
/// asked for are an error.
pub open spec fn match_pushed(
    before: Seq<String>,
    photo_id: Seq<char>,
    maximum_results: usize,
    after: Seq<String>,
    result: Result<(), PhotoQueryError>,
) -> bool {
    &&& texts(after) == texts(before).push(photo_id)
    &&& result == (if after.len() > maximum_results {
        Err::<(), PhotoQueryError>(PhotoQueryError::ResultLimitExceeded { limit: maximum_results })
    } else {
        Ok::<(), PhotoQueryError>(())
    })
}

/// Appends a match; one more than the limit refuses the query.
pub fn push_query_match(ids: &mut Vec<String>, photo_id: &str, maximum_results: usize) -> (result:
    Result<(), PhotoQueryError>)
    ensures
        match_pushed(old(ids)@, photo_id@, maximum_results, final(ids)@, result),
{
    let item: String = photo_id.to_owned();
    proof {
        lemma_texts_push(ids@, item);
    }
    ids.push(item);
    if ids.len() > maximum_results {
        Err(PhotoQueryError::ResultLimitExceeded { limit: maximum_results })
    } else {
        Ok(())
    }
}

/// What is read before a query runs: whether the Album it names exists, the stored
/// Photos, and the stored members of Albums.
#[derive(Clone, Debug, PartialEq, Eq)]
pub struct QueryFacts {
    pub album_exists: bool,
    pub photos: Vec<QueryPhoto>,
    pub members: Vec<MemberEntry>,
}

/// The stored decisions that a query looks at.
pub open spec fn looked_at(query: PhotoQuery, facts: QueryFacts) -> Seq<DecisionRow> {
    source_rows(query.source, facts.photos@, facts.members@)
}

/// Whether some candidate lies in a folder.
pub open spec fn folder_populated(
    candidates: Seq<PhotoQueryCandidate>,
    location: Seq<char>,
) -> bool {
    exists|i: int|
        0 <= i < candidates.len() && in_folder((#[trigger] candidates[i]).relative_path@, location)
}

/// Whether a query is malformed, its source aside.
pub open spec fn malformed_query(query: PhotoQuery, maximum_results: nat) -> bool {
    ||| maximum_results == 0
    ||| maximum_results == usize::MAX
    ||| query.rating_minimum matches Some(minimum) && minimum > MAXIMUM_PHOTO_RATING
    ||| query.rating_maximum matches Some(maximum) && maximum > MAXIMUM_PHOTO_RATING
    ||| query.rating_minimum is Some && query.rating_maximum is Some && query.rating_minimum->0
        > query.rating_maximum->0
    ||| query.captured_from is Some && query.captured_before is Some && !text_less(
        query.captured_from->0.text@,
        query.captured_before->0.text@,
    )
    ||| query.order == PhotoQueryOrder::AlbumOrder && !(query.source is Album)
}

/// Why a query is refused before it runs.
pub open spec fn query_refusal(
    query: PhotoQuery,
    candidates: Seq<PhotoQueryCandidate>,
    album_exists: bool,
    maximum_results: nat,
) -> Option<PhotoQueryError> {
    if malformed_query(query, maximum_results) {
        Some(PhotoQueryError::Invalid)
    } else {
        match query.source {
            PhotoQuerySource::AllPhotos => None,
            PhotoQuerySource::Folder(location) => if location@.len() == 0 {
                None
            } else if !folder_location(location@) {
                Some(PhotoQueryError::Invalid)
            } else if !folder_populated(candidates, location@) {
                Some(PhotoQueryError::SourceNotFound)
            } else {
                None
            },
            PhotoQuerySource::Album(album_id) => if album_id@.len() == 0 {
                Some(PhotoQueryError::Invalid)
            } else if !album_exists {
                Some(PhotoQueryError::SourceNotFound)
            } else {
                None
            },
        }
    }
}

/// The result with one more match, or the refusal of a result over the limit.
pub open spec fn with_match(
    ids: Seq<Seq<char>>,
    id: Seq<char>,
    maximum_results: usize,
) -> Result<Seq<Seq<char>>, PhotoQueryError> {
    if ids.len() + 1 > maximum_results {
        Err(PhotoQueryError::ResultLimitExceeded { limit: maximum_results })
    } else {
        Ok(ids.push(id))
    }
}

/// The result after a candidate with its stored decision.
pub open spec fn after_candidate(
    query: PhotoQuery,
    candidate: PhotoQueryCandidate,
    row: DecisionRow,
    ids: Seq<Seq<char>>,
    maximum_results: usize,
) -> Result<Seq<Seq<char>>, PhotoQueryError> {
    match selection_of(row.selection@) {
        None => Err(PhotoQueryError::Storage),
        Some(selection) => if !(0 <= row.rating <= u8::MAX) {
            Err(PhotoQueryError::Storage)
        } else if candidate_fits(query, candidate, selection, row.rating as u8) {
            with_match(ids, candidate.photo_id@, maximum_results)
        } else {
            Ok(ids)
        },
    }
}

/// The result of a query in the order of an Album.
pub open spec fn album_run(
    query: PhotoQuery,
    projection: PhotoQueryProjection,
    rows: Seq<DecisionRow>,
    maximum_results: usize,
) -> Result<Seq<Seq<char>>, PhotoQueryError>
    decreases rows.len(),
{
    if rows.len() == 0 {
        Ok(Seq::empty())
    } else {
        match album_run(query, projection, rows.drop_last(), maximum_results) {
            Err(error) => Err(error),
            Ok(ids) => {
                let row = rows.last();
                if !projection.index@.contains_key(row.photo_id@) {
                    Ok(ids)
                } else {
                    after_candidate(
                        query,
                        projection.candidates@[projection.index@[row.photo_id@] as int],
                        row,
                        ids,
                        maximum_results,
                    )
                }
            },
        }
    }
}

/// The stored decision of a Photo.
pub open spec fn row_of(rows: Seq<DecisionRow>, id: Seq<char>) -> Option<DecisionRow>
    decreases rows.len(),
{
    if rows.len() == 0 {
        None
    } else if rows.last().photo_id@ == id {
        Some(rows.last())
    } else {
        row_of(rows.drop_last(), id)
    }
}

/// Whether a query's source leaves a candidate out by its folder.
pub open spec fn outside_folder(query: PhotoQuery, candidate: PhotoQueryCandidate) -> bool {
    query.source matches PhotoQuerySource::Folder(location) && !in_folder(
        candidate.relative_path@,
        location@,
    )
}

/// The result of a query over candidates in a given order.
pub open spec fn capture_run(
    query: PhotoQuery,
    ordered: Seq<PhotoQueryCandidate>,
    rows: Seq<DecisionRow>,
    maximum_results: usize,
) -> Result<Seq<Seq<char>>, PhotoQueryError>
    decreases ordered.len(),
{
    if ordered.len() == 0 {
        Ok(Seq::empty())
    } else {
        match capture_run(query, ordered.drop_last(), rows, maximum_results) {
            Err(error) => Err(error),
            Ok(ids) => {
                let candidate = ordered.last();
                if outside_folder(query, candidate) {
                    Ok(ids)
                } else {
                    match row_of(rows, candidate.photo_id@) {
                        None => Ok(ids),
                        Some(row) => after_candidate(query, candidate, row, ids, maximum_results),
                    }
                }
            },
        }
    }
}

/// The candidates of a projection in the order of a query.
pub open spec fn ordered_candidates(
    projection: PhotoQueryProjection,
    order: PhotoQueryOrder,
) -> Seq<PhotoQueryCandidate> {
    if order == PhotoQueryOrder::CaptureTimeDescending {
        Seq::new(
            projection.descending@.len(),
            |i: int| projection.candidates@[projection.descending@[i] as int],
        )
    } else {
        projection.candidates@
    }
}

/// What a query fixes, or why it is refused.
pub open spec fn query_result(
    query: PhotoQuery,
    projection: PhotoQueryProjection,
    facts: QueryFacts,
    maximum_results: usize,
) -> Result<Seq<Seq<char>>, PhotoQueryError> {
    match query_refusal(query, projection.candidates@, facts.album_exists, maximum_results as nat) {
        Some(error) => Err(error),
        None => if query.order == PhotoQueryOrder::AlbumOrder {
            album_run(query, projection, looked_at(query, facts), maximum_results)
        } else {
            capture_run(
                query,
                ordered_candidates(projection, query.order),
                looked_at(query, facts),
                maximum_results,
            )
        },
    }
}

/// Whether an answer is a result, on its view.
pub open spec fn query_answered(
    answer: Result<Vec<String>, PhotoQueryError>,
    result: Result<Seq<Seq<char>>, PhotoQueryError>,
) -> bool {
    match result {
        Ok(ids) => answer is Ok && texts(answer->Ok_0@) == ids,
        Err(error) => answer == Err::<Vec<String>, PhotoQueryError>(error),
    }
}

fn any_in_folder(candidates: &Vec<PhotoQueryCandidate>, location: &String) -> (answer: bool)
    ensures
        answer == folder_populated(candidates@, location@),
{
    let mut i: usize = 0;
    while i < candidates.len()
        invariant
            i <= candidates.len(),
            forall|j: int|
                0 <= j < i ==> !in_folder((#[trigger] candidates@[j]).relative_path@, location@),
        decreases candidates.len() - i,
    {
        if candidate_in_folder(&candidates[i], location) {
            return true;
        }
        i = i + 1;
    }
    false
}

/// Why a query is refused before it runs.
pub fn refuse_query(
    query: &PhotoQuery,
    candidates: &Vec<PhotoQueryCandidate>,
    album_exists: bool,
    maximum_results: usize,
) -> (refusal: Option<PhotoQueryError>)
    ensures
        refusal == query_refusal(*query, candidates@, album_exists, maximum_results as nat),
{
    if maximum_results == 0 || maximum_results == usize::MAX {
        return Some(PhotoQueryError::Invalid);
    }
    match query.rating_minimum {
        Some(minimum) => {
            if minimum > MAXIMUM_PHOTO_RATING {
                return Some(PhotoQueryError::Invalid);
            }
        },
        None => {},
    }
    match query.rating_maximum {
        Some(maximum) => {
            if maximum > MAXIMUM_PHOTO_RATING {
                return Some(PhotoQueryError::Invalid);
            }
        },
        None => {},
    }
    match (query.rating_minimum, query.rating_maximum) {
        (Some(minimum), Some(maximum)) => {
            if minimum > maximum {
                return Some(PhotoQueryError::Invalid);
            }
        },
        _ => {},
    }
    match (&query.captured_from, &query.captured_before) {
        (Some(from), Some(before)) => {
            if !comes_before(&from.text, &before.text) {
                return Some(PhotoQueryError::Invalid);
            }
        },
        _ => {},
    }
    match &query.source {
        PhotoQuerySource::AllPhotos => {
            if query.order == PhotoQueryOrder::AlbumOrder {
                Some(PhotoQueryError::Invalid)
            } else {
                None
            }
        },
        PhotoQuerySource::Folder(location) => {
            if query.order == PhotoQueryOrder::AlbumOrder {
                Some(PhotoQueryError::Invalid)
            } else if location.as_str().unicode_len() == 0 {
                None
            } else if !valid_folder_location(location) {
                Some(PhotoQueryError::Invalid)
            } else if !any_in_folder(candidates, location) {
                Some(PhotoQueryError::SourceNotFound)
            } else {
                None
            }
        },
        PhotoQuerySource::Album(album_id) => {
            if album_id.as_str().unicode_len() == 0 {
                Some(PhotoQueryError::Invalid)
            } else if !album_exists {
                Some(PhotoQueryError::SourceNotFound)
            } else {
                None
            }
        },
    }
}

pub(crate) fn index_rows(rows: &Vec<DecisionRow>) -> (index: StringHashMap<usize>)
    ensures
        forall|id: Seq<char>| #[trigger] index@.contains_key(id) <==> row_of(rows@, id) is Some,
        forall|id: Seq<char>| #[trigger]
            index@.contains_key(id) ==> index@[id] < rows.len() && row_of(rows@, id) == Some(
                rows@[index@[id] as int],
            ),
{
    let mut index: StringHashMap<usize> = StringHashMap::new();
    let mut i: usize = 0;
    while i < rows.len()
        invariant
            i <= rows.len(),
            forall|id: Seq<char>| #[trigger]
                index@.contains_key(id) <==> row_of(rows@.take(i as int), id) is Some,
            forall|id: Seq<char>| #[trigger]
                index@.contains_key(id) ==> index@[id] < rows.len() && row_of(
                    rows@.take(i as int),
                    id,
                ) == Some(rows@[index@[id] as int]),
        decreases rows.len() - i,
    {
        assert(rows@.take(i + 1).drop_last() =~= rows@.take(i as int));
        assert(rows@.take(i + 1).last() == rows@[i as int]);
        index.insert(rows[i].photo_id.clone(), i);
        i = i + 1;
    }
    assert(rows@.take(rows@.len() as int) =~= rows@);
    index
}

fn take_candidate(
    query: &PhotoQuery,
    candidate: &PhotoQueryCandidate,
    row: &DecisionRow,
    ids: &mut Vec<String>,
    maximum_results: usize,
) -> (result: Result<(), PhotoQueryError>)
    ensures
        match after_candidate(*query, *candidate, *row, texts(old(ids)@), maximum_results) {
            Ok(after) => result is Ok && texts(final(ids)@) == after,
            Err(error) => result == Err::<(), PhotoQueryError>(error),
        },
{
    let selection: SelectionState = match parse_selection_state(&row.selection) {
        Some(selection) => selection,
        None => {
            return Err(PhotoQueryError::Storage);
        },
    };
    if row.rating < 0 || row.rating > u8::MAX as i64 {
        return Err(PhotoQueryError::Storage);
    }
    if candidate_matches(query, candidate, selection, row.rating as u8) {
        assert(texts(ids@).len() == ids.len());
        let pushed: Result<(), PhotoQueryError> = push_query_match(
            ids,
            candidate.photo_id.as_str(),
            maximum_results,
        );
        assert(texts(ids@).len() == ids.len());
        return pushed;
    }
    Ok(())
}

proof fn lemma_album_run_stopped(
    query: PhotoQuery,
    projection: PhotoQueryProjection,
    rows: Seq<DecisionRow>,
    maximum_results: usize,
    n: int,
)
    requires
        0 <= n <= rows.len(),
        album_run(query, projection, rows.take(n), maximum_results) is Err,
    ensures
        album_run(query, projection, rows, maximum_results) == album_run(
            query,
            projection,
            rows.take(n),
            maximum_results,
        ),
    decreases rows.len(),
{
    if n < rows.len() {
        assert(rows.drop_last().take(n) =~= rows.take(n));
        lemma_album_run_stopped(query, projection, rows.drop_last(), maximum_results, n);
    } else {
        assert(rows.take(n) =~= rows);
    }
}

proof fn lemma_capture_run_stopped(
    query: PhotoQuery,
    ordered: Seq<PhotoQueryCandidate>,
    rows: Seq<DecisionRow>,
    maximum_results: usize,
    n: int,
)
    requires
        0 <= n <= ordered.len(),
        capture_run(query, ordered.take(n), rows, maximum_results) is Err,
    ensures
        capture_run(query, ordered, rows, maximum_results) == capture_run(
            query,
            ordered.take(n),
            rows,
            maximum_results,
        ),
    decreases ordered.len(),
{
    if n < ordered.len() {
        assert(ordered.drop_last().take(n) =~= ordered.take(n));
        lemma_capture_run_stopped(query, ordered.drop_last(), rows, maximum_results, n);
    } else {
        assert(ordered.take(n) =~= ordered);
    }
}

fn run_album(
    query: &PhotoQuery,
    projection: &PhotoQueryProjection,
    rows: &Vec<DecisionRow>,
    maximum_results: usize,
) -> (answer: Result<Vec<String>, PhotoQueryError>)
    requires
        projection.wf(),
    ensures
        query_answered(answer, album_run(*query, *projection, rows@, maximum_results)),
{
    let mut ids: Vec<String> = Vec::new();
    let mut i: usize = 0;
    assert(texts(ids@) =~= Seq::<Seq<char>>::empty());
    while i < rows.len()
        invariant
            i <= rows.len(),
            projection.wf(),
            album_run(*query, *projection, rows@.take(i as int), maximum_results) == Ok::<
                Seq<Seq<char>>,
                PhotoQueryError,
            >(texts(ids@)),
        decreases rows.len() - i,
    {
        assert(rows@.take(i + 1).drop_last() =~= rows@.take(i as int));
        assert(rows@.take(i + 1).last() == rows@[i as int]);
        match projection.get(rows[i].photo_id.as_str()) {
            None => {},
            Some(candidate) => {
                match take_candidate(query, candidate, &rows[i], &mut ids, maximum_results) {
                    Ok(_) => {},
                    Err(error) => {
                        proof {
                            lemma_album_run_stopped(
                                *query,
                                *projection,
                                rows@,
                                maximum_results,
                                i + 1,
                            );
                        }
                        return Err(error);
                    },
                }
            },
        }
        i = i + 1;
    }
    assert(rows@.take(rows@.len() as int) =~= rows@);
    Ok(ids)
}

/// Runs a query: which Photos it fixes, in which order.
pub fn create_photo_query(
    query: &PhotoQuery,
    projection: &PhotoQueryProjection,
    facts: &QueryFacts,
    maximum_results: usize,
) -> (answer: Result<Vec<String>, PhotoQueryError>)
    requires
        projection.wf(),
    ensures
        query_answered(answer, query_result(*query, *projection, *facts, maximum_results)),
{
    match refuse_query(query, &projection.candidates, facts.album_exists, maximum_results) {
        Some(error) => {
            return Err(error);
        },
        None => {},
    }
    let stored: Vec<DecisionRow> = query_rows(&query.source, &facts.photos, &facts.members);
    if query.order == PhotoQueryOrder::AlbumOrder {
        return run_album(query, projection, &stored, maximum_results);
    }
    let ghost ordered = ordered_candidates(*projection, query.order);
    let ghost rows = stored@;
    let index: StringHashMap<usize> = index_rows(&stored);
    let mut ids: Vec<String> = Vec::new();
    let mut i: usize = 0;
    assert(texts(ids@) =~= Seq::<Seq<char>>::empty());
    while i < projection.candidates.len()
        invariant
            i <= projection.candidates.len(),
            projection.wf(),
            ordered == ordered_candidates(*projection, query.order),
            ordered.len() == projection.candidates.len(),
            rows == stored@,
            rows == looked_at(*query, *facts),
            forall|id: Seq<char>| #[trigger] index@.contains_key(id) <==> row_of(rows, id) is Some,
            forall|id: Seq<char>| #[trigger]
                index@.contains_key(id) ==> index@[id] < rows.len() && row_of(rows, id) == Some(
                    rows[index@[id] as int],
                ),
            capture_run(*query, ordered.take(i as int), rows, maximum_results) == Ok::<
                Seq<Seq<char>>,
                PhotoQueryError,
            >(texts(ids@)),
            query_refusal(
                *query,
                projection.candidates@,
                facts.album_exists,
                maximum_results as nat,
            ) is None,
            query.order != PhotoQueryOrder::AlbumOrder,
        decreases projection.candidates.len() - i,
    {
        let at: usize = if query.order == PhotoQueryOrder::CaptureTimeDescending {
            projection.descending[i]
        } else {
            i
        };
        let candidate: &PhotoQueryCandidate = &projection.candidates[at];
        assert(ordered.take(i + 1).drop_last() =~= ordered.take(i as int));
        assert(ordered.take(i + 1).last() == *candidate);
        let outside: bool = match &query.source {
            PhotoQuerySource::Folder(location) => !candidate_in_folder(candidate, location),
            _ => false,
        };
        if !outside {
            match index.get(candidate.photo_id.as_str()) {
                None => {},
                Some(found) => {
                    let taken: Result<(), PhotoQueryError> = take_candidate(
                        query,
                        candidate,
                        &stored[*found],
                        &mut ids,
                        maximum_results,
                    );
                    match taken {
                        Ok(_) => {},
                        Err(error) => {
                            proof {
                                lemma_capture_run_stopped(
                                    *query,
                                    ordered,
                                    rows,
                                    maximum_results,
                                    i + 1,
                                );
                            }
                            return Err(error);
                        },
                    }
                },
            }
        }
        i = i + 1;
    }
    assert(ordered.take(ordered.len() as int) =~= ordered);
    Ok(ids)
}


/// What a list of Albums is asked for.
#[derive(Clone, Debug, PartialEq, Eq)]
pub enum AlbumQueryFilter {
    All,
    ExactName(String),
    ContainsPhoto(String),
}

/// The ages of stored Albums.
pub open spec fn entry_ages(albums: Seq<AlbumEntry>) -> Seq<AlbumAge> {
    Seq::new(
        albums.len(),
        |i: int| AlbumAge { created_at: albums[i].created_at, id: albums[i].id },
    )
}

/// Stored Albums, the oldest one first.
pub open spec fn entries_by_creation(albums: Seq<AlbumEntry>) -> Seq<AlbumEntry> {
    Seq::new(albums.len(), |i: int| albums[creation_order(entry_ages(albums))[i]])
}

/// Whether an Album is what a filter asks for; names are told apart as the database
/// does.
pub open spec fn album_fits(
    filter: AlbumQueryFilter,
    album: AlbumEntry,
    members: Seq<MemberEntry>,
) -> bool {
    match filter {
        AlbumQueryFilter::All => true,
        AlbumQueryFilter::ExactName(name) => stored_name(album.name@) == stored_name(name@),
        AlbumQueryFilter::ContainsPhoto(photo_id) => is_member(members, album.id@, photo_id@),
    }
}

/// The Albums that a filter asks for, in order.
pub open spec fn album_matches(
    filter: AlbumQueryFilter,
    albums: Seq<AlbumEntry>,
    members: Seq<MemberEntry>,
) -> Seq<Seq<char>>
    decreases albums.len(),
{
    if albums.len() == 0 {
        Seq::empty()
    } else {
        let before = album_matches(filter, albums.drop_last(), members);
        if album_fits(filter, albums.last(), members) {
            before.push(albums.last().id@)
        } else {
            before
        }
    }
}

/// The Albums that a filter asks for, the oldest one first.
pub open spec fn album_query_result(
    filter: AlbumQueryFilter,
    albums: Seq<AlbumEntry>,
    members: Seq<MemberEntry>,
) -> Seq<Seq<char>> {
    album_matches(filter, entries_by_creation(albums), members)
}

fn order_entries(albums: &Vec<AlbumEntry>) -> (order: Vec<usize>)
    ensures
        rows_view(order@) == creation_order(entry_ages(albums@)),
        order.len() == albums.len(),
        forall|i: int| 0 <= i < order.len() ==> (#[trigger] order@[i]) < albums.len(),
{
    let mut ages: Vec<AlbumAge> = Vec::new();
    let mut i: usize = 0;
    while i < albums.len()
        invariant
            i <= albums.len(),
            ages@ == entry_ages(albums@).take(i as int),
        decreases albums.len() - i,
    {
        ages.push(AlbumAge { created_at: albums[i].created_at, id: albums[i].id.clone() });
        assert(ages@ =~= entry_ages(albums@).take(i + 1));
        i = i + 1;
    }
    assert(ages@ =~= entry_ages(albums@));
    order_by_creation(&ages)
}

/// Whether a filter or a limit of an Album query is malformed.
pub open spec fn malformed_album_query(filter: AlbumQueryFilter, maximum_results: nat) -> bool {
    ||| maximum_results == 0
    ||| maximum_results == usize::MAX
    ||| maximum_results + 1 > i64::MAX
    ||| filter matches AlbumQueryFilter::ExactName(name) && name@.len() == 0
    ||| filter matches AlbumQueryFilter::ContainsPhoto(id) && id@.len() == 0
}

/// Why an Album query is refused before it runs.
pub fn refuse_album_query(filter: &AlbumQueryFilter, maximum_results: usize) -> (refusal: Option<
    PhotoQueryError,
>)
    ensures
        refusal == (if malformed_album_query(*filter, maximum_results as nat) {
            Some(PhotoQueryError::Invalid)
        } else {
            None
        }),
{
    let unnamed: bool = match filter {
        AlbumQueryFilter::All => false,
        AlbumQueryFilter::ExactName(name) => name.as_str().unicode_len() == 0,
        AlbumQueryFilter::ContainsPhoto(id) => id.as_str().unicode_len() == 0,
    };
    if unnamed || maximum_results == 0 || maximum_results == usize::MAX || maximum_results as u64
        > 0x7fff_ffff_ffff_fffe {
        Some(PhotoQueryError::Invalid)
    } else {
        None
    }
}

/// Runs an Album query: the Albums it asks for, the oldest one first, unless there
/// are more than the limit.
pub fn create_album_query(
    filter: &AlbumQueryFilter,
    albums: &Vec<AlbumEntry>,
    members: &Vec<MemberEntry>,
    maximum_results: usize,
) -> (answer: Result<Vec<String>, PhotoQueryError>)
    ensures
        if malformed_album_query(*filter, maximum_results as nat) {
            answer == Err::<Vec<String>, PhotoQueryError>(PhotoQueryError::Invalid)
        } else if album_query_result(*filter, albums@, members@).len() > maximum_results {
            answer == Err::<Vec<String>, PhotoQueryError>(
                PhotoQueryError::ResultLimitExceeded { limit: maximum_results },
            )
        } else {
            answer is Ok && texts(answer->Ok_0@) == album_query_result(*filter, albums@, members@)
        },
{
    match refuse_album_query(filter, maximum_results) {
        Some(error) => {
            return Err(error);
        },
        None => {},
    }
    let order: Vec<usize> = order_entries(albums);
    let ghost sorted = entries_by_creation(albums@);
    let mut ids: Vec<String> = Vec::new();
    let mut i: usize = 0;
    assert(texts(ids@) =~= album_matches(*filter, sorted.take(0), members@));
    while i < order.len()
        invariant
            i <= order.len(),
            order.len() == albums.len(),
            sorted == entries_by_creation(albums@),
            rows_view(order@) == creation_order(entry_ages(albums@)),
            forall|j: int| 0 <= j < order.len() ==> (#[trigger] order@[j]) < albums.len(),
            texts(ids@) == album_matches(*filter, sorted.take(i as int), members@),
        decreases order.len() - i,
    {
        let album: &AlbumEntry = &albums[order[i]];
        proof {
            assert(sorted.take(i + 1).drop_last() =~= sorted.take(i as int));
            assert(rows_view(order@)[i as int] == order@[i as int]);
            assert(sorted.take(i + 1).last() == *album);
        }
        let fits: bool = match filter {
            AlbumQueryFilter::All => true,
            AlbumQueryFilter::ExactName(name) => same_stored_name(&album.name, name),
            AlbumQueryFilter::ContainsPhoto(photo_id) => has_member(members, &album.id, photo_id),
        };
        if fits {
            proof {
                lemma_texts_push(ids@, album.id);
            }
            ids.push(album.id.clone());
        }
        i = i + 1;
    }
    assert(sorted.take(order@.len() as int) =~= sorted);
    assert(texts(ids@).len() == ids.len());
    if ids.len() > maximum_results {
        Err(PhotoQueryError::ResultLimitExceeded { limit: maximum_results })
    } else {
        Ok(ids)
    }
}

/// Whether a stored decision can be read and makes a candidate what a query asks
/// for.
pub open spec fn decided_to_fit(
    query: PhotoQuery,
    candidate: PhotoQueryCandidate,
    row: DecisionRow,
) -> bool {
    &&& row.photo_id@ == candidate.photo_id@
    &&& selection_of(row.selection@) is Some
    &&& 0 <= row.rating <= u8::MAX
    &&& candidate_fits(query, candidate, selection_of(row.selection@)->0, row.rating as u8)
}

/// Whether identities are those of candidates at ascending places, each one in the
/// source of a query and decided to fit it.
pub open spec fn picks(
    ids: Seq<Seq<char>>,
    places: Seq<int>,
    query: PhotoQuery,
    ordered: Seq<PhotoQueryCandidate>,
    rows: Seq<DecisionRow>,
) -> bool {
    &&& places.len() == ids.len()
    &&& forall|i: int, j: int| 0 <= i < j < places.len() ==> places[i] < places[j]
    &&& forall|i: int|
        0 <= i < places.len() ==> {
            &&& 0 <= (#[trigger] places[i]) < ordered.len()
            &&& ordered[places[i]].photo_id@ == ids[i]
            &&& !outside_folder(query, ordered[places[i]])
            &&& row_of(rows, ids[i]) matches Some(row) && decided_to_fit(
                query,
                ordered[places[i]],
                row,
            )
        }
}

proof fn lemma_row_of(rows: Seq<DecisionRow>, id: Seq<char>)
    ensures
        row_of(rows, id) matches Some(row) ==> row.photo_id@ == id,
    decreases rows.len(),
{
    if rows.len() > 0 && rows.last().photo_id@ != id {
        lemma_row_of(rows.drop_last(), id);
    }
}

proof fn lemma_capture_run_picks(
    query: PhotoQuery,
    ordered: Seq<PhotoQueryCandidate>,
    rows: Seq<DecisionRow>,
    maximum_results: usize,
)
    ensures
        capture_run(query, ordered, rows, maximum_results) matches Ok(ids) ==> ids.len()
            <= maximum_results && exists|places: Seq<int>| #[trigger]
            picks(ids, places, query, ordered, rows),
    decreases ordered.len(),
{
    let run = capture_run(query, ordered, rows, maximum_results);
    if ordered.len() == 0 {
        assert(picks(Seq::empty(), Seq::empty(), query, ordered, rows));
    } else if run is Ok {
        let front = ordered.drop_last();
        lemma_capture_run_picks(query, front, rows, maximum_results);
        let before = capture_run(query, front, rows, maximum_results)->Ok_0;
        let places = choose|places: Seq<int>| #[trigger]
            picks(before, places, query, front, rows);
        let ids = run->Ok_0;
        assert forall|i: int| 0 <= i < places.len() implies ordered[#[trigger] places[i]]
            == front[places[i]] by {}
        if ids == before {
            assert(picks(ids, places, query, ordered, rows));
        } else {
            let candidate = ordered.last();
            lemma_row_of(rows, candidate.photo_id@);
            assert(ids == before.push(candidate.photo_id@));
            let more = places.push(ordered.len() - 1);
            assert forall|i: int| 0 <= i < more.len() implies {
                &&& 0 <= (#[trigger] more[i]) < ordered.len()
                &&& ordered[more[i]].photo_id@ == ids[i]
                &&& !outside_folder(query, ordered[more[i]])
                &&& row_of(rows, ids[i]) matches Some(row) && decided_to_fit(
                    query,
                    ordered[more[i]],
                    row,
                )
            } by {
                if i < places.len() {
                    assert(more[i] == places[i]);
                    assert(ids[i] == before[i]);
                }
            }
            assert(picks(ids, more, query, ordered, rows));
        }
    }
}

/// A query by capture time is bounded, and tells each Photo once, in the published
/// order: those alone that are in its source, have a stored decision and fit it.
pub proof fn law_queries_tell_what_fits_in_order(
    query: PhotoQuery,
    projection: PhotoQueryProjection,
    facts: QueryFacts,
    maximum_results: usize,
)
    requires
        projection.wf(),
        query.order != PhotoQueryOrder::AlbumOrder,
        query_result(query, projection, facts, maximum_results) is Ok,
    ensures
        ({
            let ids = query_result(query, projection, facts, maximum_results)->Ok_0;
            let ordered = ordered_candidates(projection, query.order);
            &&& ids.len() <= maximum_results
            &&& ids.no_duplicates()
            &&& exists|places: Seq<int>| #[trigger]
                picks(ids, places, query, ordered, looked_at(query, facts))
        }),
{
    let ids = query_result(query, projection, facts, maximum_results)->Ok_0;
    let ordered = ordered_candidates(projection, query.order);
    lemma_capture_run_picks(query, ordered, looked_at(query, facts), maximum_results);
    let places = choose|places: Seq<int>| #[trigger]
        picks(ids, places, query, ordered, looked_at(query, facts));
    let candidates = projection.candidates@;
    assert forall|i: int, j: int| 0 <= i < j < ids.len() implies ids[i] != ids[j] by {
        let a = places[i];
        let b = places[j];
        assert(a < b);
        let (x, y) = if query.order == PhotoQueryOrder::CaptureTimeDescending {
            (projection.descending@[a] as int, projection.descending@[b] as int)
        } else {
            (a, b)
        };
        assert(x != y);
        assert(ordered[a] == candidates[x] && ordered[b] == candidates[y]);
        assert(projection.index@[candidates[x].photo_id@] == x);
        assert(projection.index@[candidates[y].photo_id@] == y);
    }
}

/// Whether identities are those of an Album's members at ascending places, each one
/// published and decided to fit a query.
pub open spec fn follows_members(
    ids: Seq<Seq<char>>,
    places: Seq<int>,
    query: PhotoQuery,
    projection: PhotoQueryProjection,
    rows: Seq<DecisionRow>,
) -> bool {
    &&& places.len() == ids.len()
    &&& forall|i: int, j: int| 0 <= i < j < places.len() ==> places[i] < places[j]
    &&& forall|i: int|
        0 <= i < places.len() ==> {
            &&& 0 <= (#[trigger] places[i]) < rows.len()
            &&& rows[places[i]].photo_id@ == ids[i]
            &&& projection.index@.contains_key(ids[i])
            &&& decided_to_fit(
                query,
                projection.candidates@[projection.index@[ids[i]] as int],
                rows[places[i]],
            )
        }
}

/// A query in the order of an Album is bounded, and tells its members in their
/// order: those alone that are published and fit it.
pub proof fn law_album_ordered_queries_follow_the_album(
    query: PhotoQuery,
    projection: PhotoQueryProjection,
    rows: Seq<DecisionRow>,
    maximum_results: usize,
)
    requires
        projection.wf(),
        album_run(query, projection, rows, maximum_results) is Ok,
    ensures
        ({
            let ids = album_run(query, projection, rows, maximum_results)->Ok_0;
            &&& ids.len() <= maximum_results
            &&& exists|places: Seq<int>| #[trigger]
                follows_members(ids, places, query, projection, rows)
        }),
    decreases rows.len(),
{
    let ids = album_run(query, projection, rows, maximum_results)->Ok_0;
    if rows.len() == 0 {
        assert(follows_members(ids, Seq::empty(), query, projection, rows));
    } else {
        let front = rows.drop_last();
        law_album_ordered_queries_follow_the_album(query, projection, front, maximum_results);
        let before = album_run(query, projection, front, maximum_results)->Ok_0;
        let places = choose|places: Seq<int>| #[trigger]
            follows_members(before, places, query, projection, front);
        assert forall|i: int| 0 <= i < places.len() implies rows[#[trigger] places[i]]
            == front[places[i]] by {}
        if ids == before {
            assert(follows_members(ids, places, query, projection, rows));
        } else {
            let id = rows.last().photo_id@;
            let candidate = projection.candidates@[projection.index@[id] as int];
            assert(candidate.photo_id@ == id);
            assert(ids == before.push(id));
            let more = places.push(rows.len() - 1);
            assert forall|i: int| 0 <= i < more.len() implies {
                &&& 0 <= (#[trigger] more[i]) < rows.len()
                &&& rows[more[i]].photo_id@ == ids[i]
                &&& projection.index@.contains_key(ids[i])
                &&& decided_to_fit(
                    query,
                    projection.candidates@[projection.index@[ids[i]] as int],
                    rows[more[i]],
                )
            } by {
                if i < places.len() {
                    assert(more[i] == places[i]);
                    assert(ids[i] == before[i]);
                }
            }
            assert(follows_members(ids, more, query, projection, rows));
        }
    }
}

/// A query that is not refused leaves out no Photo that fits: where it fits within
/// the limit, every candidate in its source with a stored decision that fits is told.
pub proof fn law_queries_leave_nothing_out(
    query: PhotoQuery,
    ordered: Seq<PhotoQueryCandidate>,
    rows: Seq<DecisionRow>,
    maximum_results: usize,
    i: int,
)
    requires
        capture_run(query, ordered, rows, maximum_results) is Ok,
        0 <= i < ordered.len(),
        !outside_folder(query, ordered[i]),
        row_of(rows, ordered[i].photo_id@) is Some,
        decided_to_fit(query, ordered[i], row_of(rows, ordered[i].photo_id@)->0),
    ensures
        capture_run(query, ordered, rows, maximum_results)->Ok_0.contains(ordered[i].photo_id@),
    decreases ordered.len(),
{
    let ids = capture_run(query, ordered, rows, maximum_results)->Ok_0;
    let front = ordered.drop_last();
    let before = capture_run(query, front, rows, maximum_results)->Ok_0;
    let id = ordered[i].photo_id@;
    if i == ordered.len() - 1 {
        assert(ids == before.push(id));
        assert(ids[ids.len() - 1] == id);
    } else {
        assert(front[i] == ordered[i]);
        law_queries_leave_nothing_out(query, front, rows, maximum_results, i);
        let k = choose|k: int| 0 <= k < before.len() && before[k] == id;
        assert(ids[k] == id);
    }
}

/// A query in the order of an Album that is not refused leaves out no member that
/// fits: where it fits within the limit, every member that is published and decided
/// to fit is told.
pub proof fn law_album_queries_leave_nothing_out(
    query: PhotoQuery,
    projection: PhotoQueryProjection,
    rows: Seq<DecisionRow>,
    maximum_results: usize,
    i: int,
)
    requires
        album_run(query, projection, rows, maximum_results) is Ok,
        0 <= i < rows.len(),
        projection.index@.contains_key(rows[i].photo_id@),
        decided_to_fit(
            query,
            projection.candidates@[projection.index@[rows[i].photo_id@] as int],
            rows[i],
        ),
    ensures
        album_run(query, projection, rows, maximum_results)->Ok_0.contains(rows[i].photo_id@),
    decreases rows.len(),
{
    let ids = album_run(query, projection, rows, maximum_results)->Ok_0;
    let front = rows.drop_last();
    let before = album_run(query, projection, front, maximum_results)->Ok_0;
    let id = rows[i].photo_id@;
    if i == rows.len() - 1 {
        assert(ids == before.push(id));
        assert(ids[ids.len() - 1] == id);
    } else {
        assert(front[i] == rows[i]);
        law_album_queries_leave_nothing_out(query, projection, front, maximum_results, i);
        let k = choose|k: int| 0 <= k < before.len() && before[k] == id;
        assert(ids[k] == id);
    }
}

proof fn lemma_row_among(rows: Seq<DecisionRow>, i: int)
    requires
        0 <= i < rows.len(),
    ensures
        row_of(rows, rows[i].photo_id@) is Some,
    decreases rows.len(),
{
    if i < rows.len() - 1 {
        assert(rows.drop_last()[i] == rows[i]);
        lemma_row_among(rows.drop_last(), i);
    }
}

/// Every query tells Photos of its source alone, and none that is removed: a Photo
/// that is told is stored and not removed, a member of the Album that the query
/// names, and published in the folder that it names.
pub proof fn law_removed_photos_leave_every_source(
    query: PhotoQuery,
    projection: PhotoQueryProjection,
    facts: QueryFacts,
    maximum_results: usize,
    id: Seq<char>,
)
    requires
        projection.wf(),
        query_result(query, projection, facts, maximum_results) is Ok,
        query_result(query, projection, facts, maximum_results)->Ok_0.contains(id),
    ensures
        is_shown(facts.photos@, id),
        in_source(query.source, facts.members@, id),
        query.source matches PhotoQuerySource::Folder(location) ==> exists|i: int|
            0 <= i < projection.candidates.len() && (
            #[trigger] projection.candidates@[i]).photo_id@ == id && in_folder(
                projection.candidates@[i].relative_path@,
                location@,
            ),
{
    let ids = query_result(query, projection, facts, maximum_results)->Ok_0;
    let rows = looked_at(query, facts);
    let k = choose|k: int| 0 <= k < ids.len() && ids[k] == id;
    law_rows_are_those_of_the_source(query.source, facts.photos@, facts.members@, id);
    if query.order == PhotoQueryOrder::AlbumOrder {
        law_album_ordered_queries_follow_the_album(query, projection, rows, maximum_results);
        let places = choose|places: Seq<int>| #[trigger]
            follows_members(ids, places, query, projection, rows);
        assert(rows[places[k]].photo_id@ == id);
        lemma_row_among(rows, places[k]);
    } else {
        let ordered = ordered_candidates(projection, query.order);
        lemma_capture_run_picks(query, ordered, rows, maximum_results);
        let places = choose|places: Seq<int>| #[trigger]
            picks(ids, places, query, ordered, rows);
        let at = places[k];
        assert(ordered[at].photo_id@ == id);
        let i = if query.order == PhotoQueryOrder::CaptureTimeDescending {
            projection.descending@[at] as int
        } else {
            at
        };
        assert(projection.candidates@[i] == ordered[at]);
    }
}

/// A query leaves out no Photo that fits: where it fits within the limit, every
/// Photo is told that is published, not removed, of its source, and whose stored
/// decision fits.
pub proof fn law_queries_tell_every_photo_that_fits(
    query: PhotoQuery,
    projection: PhotoQueryProjection,
    facts: QueryFacts,
    maximum_results: usize,
    i: int,
)
    requires
        projection.wf(),
        query_result(query, projection, facts, maximum_results) is Ok,
        0 <= i < projection.candidates.len(),
        !outside_folder(query, projection.candidates@[i]),
        is_shown(facts.photos@, projection.candidates@[i].photo_id@),
        in_source(query.source, facts.members@, projection.candidates@[i].photo_id@),
        forall|j: int|
            0 <= j < facts.photos.len() && (#[trigger] facts.photos@[j]).decision.photo_id@
                == projection.candidates@[i].photo_id@ ==> decided_to_fit(
                query,
                projection.candidates@[i],
                facts.photos@[j].decision,
            ),
    ensures
        query_result(query, projection, facts, maximum_results)->Ok_0.contains(
            projection.candidates@[i].photo_id@,
        ),
{
    let candidate = projection.candidates@[i];
    let id = candidate.photo_id@;
    let rows = looked_at(query, facts);
    law_rows_are_those_of_the_source(query.source, facts.photos@, facts.members@, id);
    law_rows_are_stored(query.source, facts.photos@, facts.members@);
    lemma_row_index(rows, id);
    let r = choose|r: int| 0 <= r < rows.len() && rows[r].photo_id@ == id && row_of(rows, id)
        == Some(#[trigger] rows[r]);
    if query.order == PhotoQueryOrder::AlbumOrder {
        law_album_queries_leave_nothing_out(query, projection, rows, maximum_results, r);
    } else {
        let ordered = ordered_candidates(projection, query.order);
        lemma_rearranged_everywhere(projection.descending@, projection.candidates@.len(), i);
        let at = if query.order == PhotoQueryOrder::CaptureTimeDescending {
            choose|at: int|
                0 <= at < projection.descending.len() && projection.descending@[at] == i
        } else {
            i
        };
        assert(ordered[at] == candidate);
        law_queries_leave_nothing_out(query, ordered, rows, maximum_results, at);
    }
}

proof fn lemma_rearranged_everywhere(order: Seq<usize>, len: nat, i: int)
    requires
        rearranges(order, len),
        0 <= i < len,
    ensures
        exists|at: int| 0 <= at < order.len() && order[at] == i,
{
    let places = Seq::new(order.len(), |k: int| order[k] as int);
    let all = vstd::set_lib::set_int_range(0, len as int);
    vstd::set_lib::lemma_int_range(0, len as int);
    places.unique_seq_to_set();
    assert(places.to_set().subset_of(all)) by {
        assert forall|x: int| places.to_set().contains(x) implies all.contains(x) by {
            let k = choose|k: int| 0 <= k < places.len() && places[k] == x;
            assert(order[k] < len);
        }
    }
    vstd::set_lib::lemma_subset_equality(places.to_set(), all);
    assert(all.contains(i));
    assert(places.to_set().contains(i));
    let at = choose|at: int| 0 <= at < places.len() && places[at] == i;
    assert(order[at] == i);
}

proof fn lemma_row_index(rows: Seq<DecisionRow>, id: Seq<char>)
    ensures
        row_of(rows, id) is Some ==> exists|r: int|
            0 <= r < rows.len() && rows[r].photo_id@ == id && row_of(rows, id) == Some(
                #[trigger] rows[r],
            ),
    decreases rows.len(),
{
    if rows.len() > 0 {
        if rows.last().photo_id@ == id {
            assert(row_of(rows, id) == Some(rows[rows.len() - 1]));
        } else {
            lemma_row_index(rows.drop_last(), id);
            if row_of(rows, id) is Some {
                let front = rows.drop_last();
                let r = choose|r: int|
                    0 <= r < front.len() && front[r].photo_id@ == id && row_of(front, id) == Some(
                        #[trigger] front[r],
                    );
                assert(rows[r] == front[r]);
            }
        }
    }
}

proof fn lemma_album_matches(
    filter: AlbumQueryFilter,
    albums: Seq<AlbumEntry>,
    members: Seq<MemberEntry>,
    id: Seq<char>,
)
    ensures
        album_matches(filter, albums, members).contains(id) <==> exists|i: int|
            0 <= i < albums.len() && (#[trigger] albums[i]).id@ == id && album_fits(
                filter,
                albums[i],
                members,
            ),
    decreases albums.len(),
{
    if albums.len() > 0 {
        let front = albums.drop_last();
        let last = albums.last();
        lemma_album_matches(filter, front, members, id);
        let before = album_matches(filter, front, members);
        let after = album_matches(filter, albums, members);
        if before.contains(id) {
            let k = choose|k: int| 0 <= k < before.len() && before[k] == id;
            assert(after[k] == id);
            let i = choose|i: int|
                0 <= i < front.len() && (#[trigger] front[i]).id@ == id && album_fits(
                    filter,
                    front[i],
                    members,
                );
            assert(albums[i] == front[i]);
        }
        if album_fits(filter, last, members) {
            assert(after[before.len() as int] == last.id@);
            assert(albums[albums.len() - 1] == last);
        }
        if after.contains(id) && !before.contains(id) {
            let k = choose|k: int| 0 <= k < after.len() && after[k] == id;
            if k < before.len() {
                assert(before[k] == id);
            }
        }
        if exists|i: int|
            0 <= i < albums.len() && (#[trigger] albums[i]).id@ == id && album_fits(
                filter,
                albums[i],
                members,
            ) {
            let i = choose|i: int|
                0 <= i < albums.len() && (#[trigger] albums[i]).id@ == id && album_fits(
                    filter,
                    albums[i],
                    members,
                );
            if i < front.len() {
                assert(front[i] == albums[i]);
            }
        }
    }
}

/// An Album query tells an Album exactly when it is stored and what the filter asks
/// for.
pub proof fn law_album_queries_tell_what_fits(
    filter: AlbumQueryFilter,
    albums: Seq<AlbumEntry>,
    members: Seq<MemberEntry>,
    id: Seq<char>,
)
    ensures
        album_query_result(filter, albums, members).contains(id) <==> exists|i: int|
            0 <= i < albums.len() && (#[trigger] albums[i]).id@ == id && album_fits(
                filter,
                albums[i],
                members,
            ),
{
    let sorted = entries_by_creation(albums);
    let order = creation_order(entry_ages(albums));
    law_older_albums_come_first(entry_ages(albums));
    lemma_album_matches(filter, sorted, members, id);
    if exists|i: int|
        0 <= i < albums.len() && (#[trigger] albums[i]).id@ == id && album_fits(
            filter,
            albums[i],
            members,
        ) {
        let i = choose|i: int|
            0 <= i < albums.len() && (#[trigger] albums[i]).id@ == id && album_fits(
                filter,
                albums[i],
                members,
            );
        assert(order.contains(i));
        let k = choose|k: int| 0 <= k < order.len() && order[k] == i;
        assert(sorted[k] == albums[i]);
    }
    if exists|k: int|
        0 <= k < sorted.len() && (#[trigger] sorted[k]).id@ == id && album_fits(
            filter,
            sorted[k],
            members,
        ) {
        let k = choose|k: int|
            0 <= k < sorted.len() && (#[trigger] sorted[k]).id@ == id && album_fits(
                filter,
                sorted[k],
                members,
            );
        assert(0 <= order[k] < albums.len());
        assert(sorted[k] == albums[order[k]]);
    }
}

/// Every Photo that a query tells is stored and not removed, and passes each filter of
/// the query by what is stored of it: its stored rating is no lower than the minimum and
/// no higher than the maximum, its stored selection is the one asked for, and so are the
/// kind and the availability of its Original File; its capture time is known where one
/// is asked for, no earlier than the first and before the second bound. It lies in the
/// folder, and belongs to the Album, that the query looks in.
pub proof fn law_told_photos_pass_every_filter(
    query: PhotoQuery,
    projection: PhotoQueryProjection,
    facts: QueryFacts,
    maximum_results: usize,
    answer: Vec<String>,
    i: int,
)
    requires
        projection.wf(),
        query_answered(Ok(answer), query_result(query, projection, facts, maximum_results)),
        0 <= i < answer.len(),
    ensures
        exists|p: int, c: int|
            #![trigger facts.photos@[p], projection.candidates@[c]]
            {
                let photo = facts.photos@[p];
                let row = photo.decision;
                let candidate = projection.candidates@[c];
                let key = candidate.capture.order_key;
                &&& 0 <= p < facts.photos.len()
                &&& 0 <= c < projection.candidates.len()
                &&& row.photo_id@ == answer@[i]@
                &&& candidate.photo_id@ == answer@[i]@
                &&& !photo.removed
                &&& query.rating_minimum matches Some(minimum) ==> row.rating >= minimum
                &&& query.rating_maximum matches Some(maximum) ==> row.rating <= maximum
                &&& query.selection_state == Some(SelectionState::Undecided) ==> row.selection@
                    == "undecided"@
                &&& query.selection_state == Some(SelectionState::Selected) ==> row.selection@
                    == "selected"@
                &&& query.selection_state == Some(SelectionState::Rejected) ==> row.selection@
                    == "rejected"@
                &&& query.original_kind matches Some(kind) ==> candidate.original_kind == kind
                &&& query.original_available matches Some(available)
                    ==> candidate.original_available == available
                &&& query.captured_from matches Some(bound) ==> key is Some && !text_less(
                    key->0@,
                    bound.text@,
                )
                &&& query.captured_before matches Some(bound) ==> key is Some && text_less(
                    key->0@,
                    bound.text@,
                )
                &&& query.order != PhotoQueryOrder::AlbumOrder ==> (
                query.source matches PhotoQuerySource::Folder(location) ==> {
                    let path = candidate.relative_path@;
                    let n = location@.len() as int;
                    n == 0 || (path.len() > n && path.take(n) == location@ && path[n] == '/')
                })
            },
        query.source matches PhotoQuerySource::Album(album_id) ==> exists|m: int|
            0 <= m < facts.members.len() && (#[trigger] facts.members@[m]).album_id@ == album_id@
                && facts.members@[m].photo_id@ == answer@[i]@,
{
    let ids = query_result(query, projection, facts, maximum_results)->Ok_0;
    let rows = looked_at(query, facts);
    let id = ids[i];
    assert(texts(answer@)[i] == answer@[i]@);
    law_rows_are_stored(query.source, facts.photos@, facts.members@);
    assert(ids.contains(id));
    law_removed_photos_leave_every_source(query, projection, facts, maximum_results, id);
    if query.order == PhotoQueryOrder::AlbumOrder {
        law_album_ordered_queries_follow_the_album(query, projection, rows, maximum_results);
        let places = choose|places: Seq<int>| #[trigger]
            follows_members(ids, places, query, projection, rows);
        let row = rows[places[i]];
        assert(decided_to_fit(
            query,
            projection.candidates@[projection.index@[id] as int],
            row,
        ));
        let p = choose|p: int|
            0 <= p < facts.photos.len() && (#[trigger] facts.photos@[p]).decision == row
                && !facts.photos@[p].removed;
        let c = projection.index@[id] as int;
        assert(facts.photos@[p].decision.photo_id@ == projection.candidates@[c].photo_id@);
    } else {
        let ordered = ordered_candidates(projection, query.order);
        lemma_capture_run_picks(query, ordered, rows, maximum_results);
        let places = choose|places: Seq<int>| #[trigger]
            picks(ids, places, query, ordered, rows);
        let at = places[i];
        assert(ordered[at].photo_id@ == id);
        lemma_row_index(rows, id);
        let r = choose|r: int| 0 <= r < rows.len() && rows[r].photo_id@ == id && row_of(rows, id)
            == Some(#[trigger] rows[r]);
        assert(decided_to_fit(query, ordered[at], rows[r]));
        let p = choose|p: int|
            0 <= p < facts.photos.len() && (#[trigger] facts.photos@[p]).decision == rows[r]
                && !facts.photos@[p].removed;
        let c = if query.order == PhotoQueryOrder::CaptureTimeDescending {
            projection.descending@[at] as int
        } else {
            at
        };
        assert(projection.candidates@[c] == ordered[at]);
        assert(facts.photos@[p].decision.photo_id@ == projection.candidates@[c].photo_id@);
    }
}

/// A query that is answered tells every Photo that is stored, not removed, in the folder
/// or Album looked in, and passes each filter by what is stored of it.
pub proof fn law_photos_that_pass_every_filter_are_told(
    query: PhotoQuery,
    projection: PhotoQueryProjection,
    facts: QueryFacts,
    maximum_results: usize,
    answer: Vec<String>,
    c: int,
    p: int,
)
    requires
        projection.wf(),
        query_answered(Ok(answer), query_result(query, projection, facts, maximum_results)),
        0 <= c < projection.candidates.len(),
        0 <= p < facts.photos.len(),
        forall|q: int|
            0 <= q < facts.photos.len() && q != p ==> (
            #[trigger] facts.photos@[q]).decision.photo_id@
                != projection.candidates@[c].photo_id@,
        ({
            let photo = facts.photos@[p];
            let row = photo.decision;
            let candidate = projection.candidates@[c];
            let key = candidate.capture.order_key;
            &&& row.photo_id@ == candidate.photo_id@
            &&& !photo.removed
            &&& 0 <= row.rating <= 255
            &&& query.rating_minimum matches Some(minimum) ==> row.rating >= minimum
            &&& query.rating_maximum matches Some(maximum) ==> row.rating <= maximum
            &&& match query.selection_state {
                None => row.selection@ == "undecided"@ || row.selection@ == "selected"@
                    || row.selection@ == "rejected"@,
                Some(SelectionState::Undecided) => row.selection@ == "undecided"@,
                Some(SelectionState::Selected) => row.selection@ == "selected"@,
                Some(SelectionState::Rejected) => row.selection@ == "rejected"@,
            }
            &&& query.original_kind matches Some(kind) ==> candidate.original_kind == kind
            &&& query.original_available matches Some(available) ==> candidate.original_available
                == available
            &&& query.captured_from matches Some(bound) ==> key is Some && !text_less(
                key->0@,
                bound.text@,
            )
            &&& query.captured_before matches Some(bound) ==> key is Some && text_less(
                key->0@,
                bound.text@,
            )
            &&& query.source matches PhotoQuerySource::Folder(location) ==> {
                let path = candidate.relative_path@;
                let n = location@.len() as int;
                n == 0 || (path.len() > n && path.take(n) == location@ && path[n] == '/')
            }
            &&& query.source matches PhotoQuerySource::Album(album_id) ==> exists|m: int|
                0 <= m < facts.members.len() && (#[trigger] facts.members@[m]).album_id@
                    == album_id@ && facts.members@[m].photo_id@ == candidate.photo_id@
        }),
    ensures
        exists|i: int|
            0 <= i < answer.len() && (#[trigger] answer@[i])@
                == projection.candidates@[c].photo_id@,
{
    reveal_strlit("undecided");
    reveal_strlit("selected");
    reveal_strlit("rejected");
    assert("undecided"@.len() != "selected"@.len());
    assert("undecided"@.len() != "rejected"@.len());
    assert("selected"@[0] != "rejected"@[0]);
    let candidate = projection.candidates@[c];
    let ids = query_result(query, projection, facts, maximum_results)->Ok_0;
    assert(decided_to_fit(query, candidate, facts.photos@[p].decision));
    law_queries_tell_every_photo_that_fits(query, projection, facts, maximum_results, c);
    let i = choose|i: int| 0 <= i < ids.len() && ids[i] == candidate.photo_id@;
    assert(texts(answer@)[i] == answer@[i]@);
}

/// A query tells Photos in the order that it asks for: by capture time as published,
/// forwards or backwards, or by their positions in the Album. No Photo comes twice by
/// capture time, and no answer is longer than the limit.
pub proof fn law_told_photos_stand_in_order(
    query: PhotoQuery,
    projection: PhotoQueryProjection,
    facts: QueryFacts,
    maximum_results: usize,
    answer: Vec<String>,
    i: int,
    j: int,
)
    requires
        projection.wf(),
        query_answered(Ok(answer), query_result(query, projection, facts, maximum_results)),
        0 <= i < j < answer.len(),
    ensures
        answer.len() <= maximum_results,
        query.order == PhotoQueryOrder::CaptureTimeAscending ==> exists|a: int, b: int|
            #![trigger projection.candidates@[a], projection.candidates@[b]]
            0 <= a < b < projection.candidates.len() && projection.candidates@[a].photo_id@
                == answer@[i]@ && projection.candidates@[b].photo_id@ == answer@[j]@,
        query.order == PhotoQueryOrder::CaptureTimeDescending ==> exists|a: int, b: int|
            #![trigger projection.descending@[a], projection.descending@[b]]
            0 <= a < b < projection.descending.len()
                && projection.candidates@[projection.descending@[a] as int].photo_id@
                == answer@[i]@
                && projection.candidates@[projection.descending@[b] as int].photo_id@
                == answer@[j]@,
        query.order == PhotoQueryOrder::AlbumOrder ==> (
        query.source matches PhotoQuerySource::Album(album_id) && exists|a: int, b: int|
            #![trigger facts.members@[a], facts.members@[b]]
            0 <= a < facts.members.len() && 0 <= b < facts.members.len()
                && facts.members@[a].album_id@ == album_id@ && facts.members@[b].album_id@
                == album_id@ && facts.members@[a].photo_id@ == answer@[i]@
                && facts.members@[b].photo_id@ == answer@[j]@ && facts.members@[a].position
                <= facts.members@[b].position),
{
    let ids = query_result(query, projection, facts, maximum_results)->Ok_0;
    let rows = looked_at(query, facts);
    assert(texts(answer@)[i] == answer@[i]@);
    assert(texts(answer@)[j] == answer@[j]@);
    if query.order == PhotoQueryOrder::AlbumOrder {
        law_album_ordered_queries_follow_the_album(query, projection, rows, maximum_results);
        let places = choose|places: Seq<int>| #[trigger]
            follows_members(ids, places, query, projection, rows);
        law_album_rows_ascend(query.source, facts.photos@, facts.members@);
        let album_id = query.source->Album_0;
        let spots = choose|spots: Seq<int>| #[trigger]
            places_ascend(rows, facts.members@, album_id@, spots);
        let a = spots[places[i]];
        let b = spots[places[j]];
        assert(places[i] < places[j]);
        assert(facts.members@[a].photo_id@ == ids[i]);
        assert(facts.members@[b].photo_id@ == ids[j]);
    } else {
        let ordered = ordered_candidates(projection, query.order);
        lemma_capture_run_picks(query, ordered, rows, maximum_results);
        let places = choose|places: Seq<int>| #[trigger]
            picks(ids, places, query, ordered, rows);
        assert(places[i] < places[j]);
        assert(ordered[places[i]].photo_id@ == ids[i]);
        assert(ordered[places[j]].photo_id@ == ids[j]);
        if query.order == PhotoQueryOrder::CaptureTimeDescending {
            assert(projection.descending@[places[i]] < projection.candidates.len());
            assert(projection.descending@[places[j]] < projection.candidates.len());
        } else {
            assert(projection.candidates@[places[i]].photo_id@ == ids[i]);
            assert(projection.candidates@[places[j]].photo_id@ == ids[j]);
        }
    }
}

/// A query is refused as invalid where its limit is none or the largest number, a bound
/// of ratings is above the highest rating, the bounds cross, the bounds of the capture
/// time do not ascend, it asks for an Album's order outside an Album, or names no Album.
pub proof fn law_malformed_queries_are_refused(
    query: PhotoQuery,
    projection: PhotoQueryProjection,
    facts: QueryFacts,
    maximum_results: usize,
)
    ensures
        ({
            let result = query_result(query, projection, facts, maximum_results);
            let invalid = Err::<Seq<Seq<char>>, PhotoQueryError>(PhotoQueryError::Invalid);
            &&& maximum_results == 0 || maximum_results == usize::MAX ==> result == invalid
            &&& query.rating_minimum is Some && query.rating_minimum->0 > 5 ==> result == invalid
            &&& query.rating_maximum is Some && query.rating_maximum->0 > 5 ==> result == invalid
            &&& query.rating_minimum is Some && query.rating_maximum is Some
                && query.rating_minimum->0 > query.rating_maximum->0 ==> result == invalid
            &&& query.captured_from is Some && query.captured_before is Some && (
            query.captured_from->0.text@ == query.captured_before->0.text@ || text_less(
                query.captured_before->0.text@,
                query.captured_from->0.text@,
            )) ==> result == invalid
            &&& query.order == PhotoQueryOrder::AlbumOrder && !(query.source is Album) ==> result
                == invalid
            &&& query.source is Album && query.source->Album_0@.len() == 0 ==> result == invalid
        }),
{
    if query.captured_from is Some && query.captured_before is Some {
        let a = query.captured_from->0.text@;
        let b = query.captured_before->0.text@;
        if a == b {
            law_order_is_irreflexive(a);
        } else if text_less(b, a) {
            law_order_is_asymmetric(b, a);
        }
    }
}

/// A well-formed query of an Album that is not there, or of a folder that holds no
/// Photo, finds no source; any other well-formed query looks.
pub proof fn law_queries_find_their_source(
    query: PhotoQuery,
    projection: PhotoQueryProjection,
    facts: QueryFacts,
    maximum_results: usize,
)
    requires
        0 < maximum_results < usize::MAX,
        query.rating_minimum is Some ==> query.rating_minimum->0 <= 5,
        query.rating_maximum is Some ==> query.rating_maximum->0 <= 5,
        query.rating_minimum is Some && query.rating_maximum is Some ==> query.rating_minimum->0
            <= query.rating_maximum->0,
        query.captured_from is Some && query.captured_before is Some ==> text_less(
            query.captured_from->0.text@,
            query.captured_before->0.text@,
        ),
        query.order == PhotoQueryOrder::AlbumOrder ==> query.source is Album,
    ensures
        ({
            let refusal = query_refusal(
                query,
                projection.candidates@,
                facts.album_exists,
                maximum_results as nat,
            );
            &&& query.source is AllPhotos ==> refusal is None
            &&& query.source is Album && query.source->Album_0@.len() > 0 ==> refusal == (
            if facts.album_exists {
                None
            } else {
                Some(PhotoQueryError::SourceNotFound)
            })
            &&& query.source is Folder && query.source->Folder_0@.len() == 0 ==> refusal is None
            &&& query.source is Folder && query.source->Folder_0@.len() > 0 && folder_location(
                query.source->Folder_0@,
            ) ==> {
                let location = query.source->Folder_0@;
                let n = location.len() as int;
                &&& refusal is None || refusal == Some(PhotoQueryError::SourceNotFound)
                &&& refusal is None <==> exists|c: int|
                    0 <= c < projection.candidates.len() && {
                        let path = (#[trigger] projection.candidates@[c]).relative_path@;
                        path.len() > n && path.take(n) == location && path[n] == '/'
                    }
            }
            &&& refusal is Some ==> query_result(query, projection, facts, maximum_results)
                == Err::<Seq<Seq<char>>, PhotoQueryError>(refusal->0)
        }),
{
    if query.source is Folder {
        let location = query.source->Folder_0@;
        let n = location.len() as int;
        let candidates = projection.candidates@;
        if folder_populated(candidates, location) {
            let c = choose|c: int|
                0 <= c < candidates.len() && in_folder(
                    (#[trigger] candidates[c]).relative_path@,
                    location,
                );
            assert(in_folder(candidates[c].relative_path@, location));
        }
        if n > 0 && exists|c: int|
            0 <= c < projection.candidates.len() && {
                let path = (#[trigger] projection.candidates@[c]).relative_path@;
                path.len() > n && path.take(n) == location && path[n] == '/'
            } {
            let c = choose|c: int|
                0 <= c < projection.candidates.len() && {
                    let path = (#[trigger] projection.candidates@[c]).relative_path@;
                    path.len() > n && path.take(n) == location && path[n] == '/'
                };
            assert(in_folder(candidates[c].relative_path@, location));
        }
    }
}

/// A query of Albums tells all of them, or those of the name asked for, the case of
/// ASCII letters aside, or those that hold the Photo asked for, and no other.
pub proof fn law_told_albums_pass_the_filter(
    filter: AlbumQueryFilter,
    albums: Seq<AlbumEntry>,
    members: Seq<MemberEntry>,
    k: int,
)
    requires
        0 <= k < albums.len(),
        forall|j: int| 0 <= j < albums.len() && j != k ==> (#[trigger] albums[j]).id@ != albums[k].id@,
    ensures
        ({
            let told = album_query_result(filter, albums, members).contains(albums[k].id@);
            &&& filter is All ==> told
            &&& filter matches AlbumQueryFilter::ExactName(name) ==> (!name@.contains('\0')
                && !albums[k].name@.contains('\0') ==> (told <==> name@.len()
                == albums[k].name@.len() && forall|x: int|
                0 <= x < name@.len() ==> {
                    let c = #[trigger] name@[x];
                    let d = albums[k].name@[x];
                    c == d || ('A' <= c <= 'Z' && d as int == c as int + 32) || ('A' <= d <= 'Z'
                        && c as int == d as int + 32)
                }))
            &&& filter matches AlbumQueryFilter::ContainsPhoto(photo_id) ==> (told <==> exists|
                m: int,
            |
                0 <= m < members.len() && (#[trigger] members[m]).album_id@ == albums[k].id@
                    && members[m].photo_id@ == photo_id@)
        }),
{
    law_album_queries_tell_what_fits(filter, albums, members, albums[k].id@);
    if let AlbumQueryFilter::ExactName(name) = filter {
        if !name@.contains('\0') && !albums[k].name@.contains('\0') {
            law_names_differ_in_case_alone(name@, albums[k].name@);
        }
    }
}

/// A query for Albums is refused exactly where it asks for no result or for more than a
/// stored number holds, or where the text it looks for is empty.
pub proof fn law_malformed_album_queries_are_refused(
    filter: AlbumQueryFilter,
    maximum_results: usize,
    refusal: Option<PhotoQueryError>,
)
    requires
        call_ensures(refuse_album_query, (&filter, maximum_results), refusal),
    ensures
        refusal is Some ==> refusal->0 is Invalid,
        refusal is None <==> {
            &&& 1 <= maximum_results
            &&& maximum_results < usize::MAX
            &&& maximum_results < 0x7fff_ffff_ffff_ffff
            &&& filter matches AlbumQueryFilter::ExactName(name) ==> 0 < name@.len()
            &&& filter matches AlbumQueryFilter::ContainsPhoto(id) ==> 0 < id@.len()
        },
{
}

/// One more match comes behind those before it, and is refused exactly where there are
/// already as many as were asked for.
pub proof fn law_matches_are_limited(
    before: Seq<String>,
    photo_id: Seq<char>,
    maximum_results: usize,
    after: Seq<String>,
    result: Result<(), PhotoQueryError>,
    i: int,
)
    requires
        match_pushed(before, photo_id, maximum_results, after, result),
        0 <= i < before.len(),
    ensures
        after.len() == before.len() + 1,
        after[i]@ == before[i]@,
        after[before.len() as int]@ == photo_id,
        result is Ok <==> before.len() < maximum_results,
        result matches Err(error) ==> error == (PhotoQueryError::ResultLimitExceeded {
            limit: maximum_results,
        }),
{
    assert(texts(after).len() == after.len());
    assert(texts(after)[i] == after[i]@);
    assert(texts(before)[i] == before[i]@);
    assert(texts(after)[before.len() as int] == after[before.len() as int]@);
}

spec fn cut_off(
    narrow: Result<Seq<Seq<char>>, PhotoQueryError>,
    wide: Seq<Seq<char>>,
    limit: usize,
) -> bool {
    if wide.len() <= limit {
        narrow == Ok::<Seq<Seq<char>>, PhotoQueryError>(wide)
    } else {
        narrow == Err::<Seq<Seq<char>>, PhotoQueryError>(
            PhotoQueryError::ResultLimitExceeded { limit },
        )
    }
}

proof fn lemma_album_run_limited(
    query: PhotoQuery,
    projection: PhotoQueryProjection,
    rows: Seq<DecisionRow>,
    narrow: usize,
    wide: usize,
)
    requires
        narrow <= wide,
        album_run(query, projection, rows, wide) is Ok,
    ensures
        album_run(query, projection, rows, wide)->Ok_0.len() <= wide,
        cut_off(
            album_run(query, projection, rows, narrow),
            album_run(query, projection, rows, wide)->Ok_0,
            narrow,
        ),
    decreases rows.len(),
{
    if rows.len() > 0 {
        lemma_album_run_limited(query, projection, rows.drop_last(), narrow, wide);
    }
}

proof fn lemma_capture_run_limited(
    query: PhotoQuery,
    ordered: Seq<PhotoQueryCandidate>,
    rows: Seq<DecisionRow>,
    narrow: usize,
    wide: usize,
)
    requires
        narrow <= wide,
        capture_run(query, ordered, rows, wide) is Ok,
    ensures
        capture_run(query, ordered, rows, wide)->Ok_0.len() <= wide,
        cut_off(
            capture_run(query, ordered, rows, narrow),
            capture_run(query, ordered, rows, wide)->Ok_0,
            narrow,
        ),
    decreases ordered.len(),
{
    if ordered.len() > 0 {
        lemma_capture_run_limited(query, ordered.drop_last(), rows, narrow, wide);
    }
}

/// The limit of a query cuts nothing off in silence: a smaller one is answered alike where
/// as many matches as that were found, and with an error that names it where more were.
pub proof fn law_limits_refuse_what_exceeds_them(
    query: PhotoQuery,
    projection: PhotoQueryProjection,
    facts: QueryFacts,
    narrow: usize,
    wide: usize,
    less: Result<Vec<String>, PhotoQueryError>,
    more: Vec<String>,
)
    requires
        1 <= narrow <= wide,
        query_answered(less, query_result(query, projection, facts, narrow)),
        query_answered(Ok(more), query_result(query, projection, facts, wide)),
    ensures
        more.len() <= wide,
        more.len() <= narrow ==> less is Ok && texts(less->Ok_0@) == texts(more@),
        more.len() > narrow ==> less == Err::<Vec<String>, PhotoQueryError>(
            PhotoQueryError::ResultLimitExceeded { limit: narrow },
        ),
{
    let rows = looked_at(query, facts);
    assert(texts(more@).len() == more.len());
    if query.order == PhotoQueryOrder::AlbumOrder {
        lemma_album_run_limited(query, projection, rows, narrow, wide);
    } else {
        lemma_capture_run_limited(
            query,
            ordered_candidates(projection, query.order),
            rows,
            narrow,
            wide,
        );
    }
}

/// The limit of a query for Albums cuts nothing off in silence either.
pub proof fn law_album_limits_refuse_what_exceeds_them(
    filter: AlbumQueryFilter,
    albums: Vec<AlbumEntry>,
    members: Vec<MemberEntry>,
    narrow: usize,
    wide: usize,
    less: Result<Vec<String>, PhotoQueryError>,
    more: Vec<String>,
)
    requires
        1 <= narrow <= wide,
        call_ensures(create_album_query, (&filter, &albums, &members, narrow), less),
        call_ensures(create_album_query, (&filter, &albums, &members, wide), Ok(more)),
    ensures
        more.len() <= wide,
        more.len() <= narrow ==> less is Ok && texts(less->Ok_0@) == texts(more@),
        more.len() > narrow ==> less == Err::<Vec<String>, PhotoQueryError>(
            PhotoQueryError::ResultLimitExceeded { limit: narrow },
        ),
{
    assert(texts(more@).len() == more.len());
}

} // verus!
