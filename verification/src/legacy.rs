//! Databases from before the schema had versions: what they must hold to be
//! migrated.
use crate::binary::{negative, Real};
use crate::error::PersistenceError;
use crate::text::{is_text, same_text, same_texts, texts};
use vstd::prelude::*;
use vstd::string::*;

verus! {

/// A value of the database in the type that it is stored in.
#[derive(Clone, Debug, PartialEq, Eq)]
pub enum StoredValue {
    Null,
    Integer(i64),
    Number(Real),
    Text(String),
    Blob,
}

/// Whether a value is a text that is not empty.
pub open spec fn filled_text(value: StoredValue) -> bool {
    value matches StoredValue::Text(text) && text@.len() > 0
}

/// Whether a value is one of the numbers 0 and 1.
pub open spec fn flag(value: StoredValue) -> bool {
    value matches StoredValue::Integer(n) && (n == 0 || n == 1)
}

/// Whether a value is there and none of the given names.
pub open spec fn other_than(value: StoredValue, names: Seq<Seq<char>>) -> bool {
    match value {
        StoredValue::Null => false,
        StoredValue::Text(text) => !names.contains(text@),
        _ => true,
    }
}

/// A row of an Original File.
#[derive(Clone, Debug, PartialEq, Eq)]
pub struct UnversionedOriginal {
    pub id: StoredValue,
    pub relative_path: StoredValue,
    pub kind: StoredValue,
    pub size: StoredValue,
    pub mtime_ms: StoredValue,
    pub available: StoredValue,
}

/// A row of a Photo.
#[derive(Clone, Debug, PartialEq, Eq)]
pub struct UnversionedPhoto {
    pub id: StoredValue,
    pub raw_original_id: StoredValue,
    pub jpeg_original_id: StoredValue,
    pub ambiguous: StoredValue,
    pub available: StoredValue,
    pub preview_state: StoredValue,
    pub preview_source: StoredValue,
    pub sort_path: StoredValue,
}

/// Whether a row of an Original File is sound.
pub open spec fn original_sound(row: UnversionedOriginal) -> bool {
    &&& filled_text(row.id)
    &&& filled_text(row.relative_path)
    &&& !other_than(row.kind, seq!["raw"@, "jpeg"@])
    &&& row.size matches StoredValue::Integer(n) && n >= 0
    &&& match row.mtime_ms {
        StoredValue::Integer(n) => n >= 0,
        StoredValue::Number(x) => !negative(x),
        _ => false,
    }
    &&& flag(row.available)
}

/// Whether the Original File that a row refers to, if any, is there.
pub open spec fn refers_to_one(value: StoredValue, originals: Seq<UnversionedOriginal>) -> bool {
    match value {
        StoredValue::Null => true,
        StoredValue::Text(text) => exists|i: int|
            0 <= i < originals.len() && (#[trigger] originals[i]).id is Text
                && originals[i].id->Text_0@ == text@,
        _ => false,
    }
}

/// Whether a row of a Photo is sound.
pub open spec fn photo_sound(
    row: UnversionedPhoto,
    originals: Seq<UnversionedOriginal>,
) -> bool {
    &&& filled_text(row.id)
    &&& flag(row.ambiguous)
    &&& flag(row.available)
    &&& !other_than(
        row.preview_state,
        seq!["inspection-pending"@, "ready"@, "failed"@, "unavailable"@],
    )
    &&& !other_than(row.preview_source, seq!["matching-jpeg"@, "embedded-raw-jpeg"@])
    &&& row.sort_path is Text
    &&& refers_to_one(row.raw_original_id, originals)
    &&& refers_to_one(row.jpeg_original_id, originals)
}

/// What a database without a version holds: the names of its tables in order,
/// the columns of the three that are expected, and their rows.
#[derive(Clone, Debug, PartialEq, Eq)]
pub struct UnversionedFacts {
    pub tables: Vec<String>,
    pub metadata_columns: Vec<String>,
    pub original_columns: Vec<String>,
    pub photo_columns: Vec<String>,
    pub originals: Vec<UnversionedOriginal>,
    pub photos: Vec<UnversionedPhoto>,
}

/// Whether the tables and their columns are the expected ones.
pub open spec fn expected_shape(facts: UnversionedFacts) -> bool {
    &&& texts(facts.tables@) == seq!["library_metadata"@, "original_files"@, "photos"@]
    &&& texts(facts.metadata_columns@) == seq!["key"@, "value"@]
    &&& texts(facts.original_columns@) == seq![
        "id"@,
        "relative_path"@,
        "kind"@,
        "size"@,
        "mtime_ms"@,
        "available"@,
        "inspection_error"@,
    ]
    &&& texts(facts.photo_columns@) == seq![
        "id"@,
        "raw_original_id"@,
        "jpeg_original_id"@,
        "ambiguous"@,
        "available"@,
        "preview_state"@,
        "preview_source"@,
        "sort_path"@,
    ]
}

/// What is said of a database without a version.
pub open spec fn unversioned(facts: UnversionedFacts) -> Result<(), PersistenceError> {
    if !expected_shape(facts) {
        Err(PersistenceError::UnsupportedSchema)
    } else if (forall|i: int|
        0 <= i < facts.originals@.len() ==> original_sound(#[trigger] facts.originals@[i]))
        && forall|i: int|
        0 <= i < facts.photos@.len() ==> photo_sound(
            #[trigger] facts.photos@[i],
            facts.originals@,
        ) {
        Ok(())
    } else {
        Err(PersistenceError::InvalidLegacyData)
    }
}

fn is_filled_text(value: &StoredValue) -> (answer: bool)
    ensures
        answer == filled_text(*value),
{
    match value {
        StoredValue::Text(text) => text.as_str().unicode_len() > 0,
        _ => false,
    }
}

fn is_flag(value: &StoredValue) -> (answer: bool)
    ensures
        answer == flag(*value),
{
    match value {
        StoredValue::Integer(n) => *n == 0 || *n == 1,
        _ => false,
    }
}

fn is_kind(value: &StoredValue) -> (answer: bool)
    ensures
        answer == !other_than(*value, seq!["raw"@, "jpeg"@]),
{
    let ghost names = seq!["raw"@, "jpeg"@];
    assert(names[0] == "raw"@ && names[1] == "jpeg"@);
    match value {
        StoredValue::Null => true,
        StoredValue::Text(text) => is_text(text, "raw") || is_text(text, "jpeg"),
        _ => false,
    }
}

fn is_preview_state(value: &StoredValue) -> (answer: bool)
    ensures
        answer == !other_than(
            *value,
            seq!["inspection-pending"@, "ready"@, "failed"@, "unavailable"@],
        ),
{
    let ghost names = seq!["inspection-pending"@, "ready"@, "failed"@, "unavailable"@];
    assert(names[0] == "inspection-pending"@ && names[1] == "ready"@ && names[2] == "failed"@
        && names[3] == "unavailable"@);
    match value {
        StoredValue::Null => true,
        StoredValue::Text(text) => is_text(text, "inspection-pending") || is_text(text, "ready")
            || is_text(text, "failed") || is_text(text, "unavailable"),
        _ => false,
    }
}

fn is_preview_source(value: &StoredValue) -> (answer: bool)
    ensures
        answer == !other_than(*value, seq!["matching-jpeg"@, "embedded-raw-jpeg"@]),
{
    let ghost names = seq!["matching-jpeg"@, "embedded-raw-jpeg"@];
    assert(names[0] == "matching-jpeg"@ && names[1] == "embedded-raw-jpeg"@);
    match value {
        StoredValue::Null => true,
        StoredValue::Text(text) => is_text(text, "matching-jpeg") || is_text(
            text,
            "embedded-raw-jpeg",
        ),
        _ => false,
    }
}

fn is_sound_original(row: &UnversionedOriginal) -> (answer: bool)
    ensures
        answer == original_sound(*row),
{
    let size: bool = match row.size {
        StoredValue::Integer(n) => n >= 0,
        _ => false,
    };
    let mtime: bool = match row.mtime_ms {
        StoredValue::Integer(n) => n >= 0,
        StoredValue::Number(x) => !x.is_negative(),
        _ => false,
    };
    is_filled_text(&row.id) && is_filled_text(&row.relative_path) && is_kind(&row.kind) && size
        && mtime && is_flag(&row.available)
}

fn refers(value: &StoredValue, originals: &Vec<UnversionedOriginal>) -> (answer: bool)
    ensures
        answer == refers_to_one(*value, originals@),
{
    match value {
        StoredValue::Null => true,
        StoredValue::Text(text) => {
            let mut i: usize = 0;
            while i < originals.len()
                invariant
                    i <= originals.len(),
                    *value == StoredValue::Text(*text),
                    forall|j: int|
                        0 <= j < i ==> !((#[trigger] originals@[j]).id is Text
                            && originals@[j].id->Text_0@ == text@),
                decreases originals.len() - i,
            {
                match &originals[i].id {
                    StoredValue::Text(id) => {
                        if same_text(id, text) {
                            assert(originals@[i as int].id is Text);
                            return true;
                        }
                    },
                    _ => {},
                }
                i = i + 1;
            }
            false
        },
        _ => false,
    }
}

fn is_sound_photo(row: &UnversionedPhoto, originals: &Vec<UnversionedOriginal>) -> (answer: bool)
    ensures
        answer == photo_sound(*row, originals@),
{
    let sort_path: bool = match row.sort_path {
        StoredValue::Text(_) => true,
        _ => false,
    };
    is_filled_text(&row.id) && is_flag(&row.ambiguous) && is_flag(&row.available)
        && is_preview_state(&row.preview_state) && is_preview_source(&row.preview_source)
        && sort_path && refers(&row.raw_original_id, originals) && refers(
        &row.jpeg_original_id,
        originals,
    )
}

fn has_expected_shape(facts: &UnversionedFacts) -> (answer: bool)
    ensures
        answer == expected_shape(*facts),
{
    let tables: Vec<String> = vec![
        "library_metadata".to_owned(),
        "original_files".to_owned(),
        "photos".to_owned(),
    ];
    let metadata: Vec<String> = vec!["key".to_owned(), "value".to_owned()];
    let originals: Vec<String> = vec![
        "id".to_owned(),
        "relative_path".to_owned(),
        "kind".to_owned(),
        "size".to_owned(),
        "mtime_ms".to_owned(),
        "available".to_owned(),
        "inspection_error".to_owned(),
    ];
    let photos: Vec<String> = vec![
        "id".to_owned(),
        "raw_original_id".to_owned(),
        "jpeg_original_id".to_owned(),
        "ambiguous".to_owned(),
        "available".to_owned(),
        "preview_state".to_owned(),
        "preview_source".to_owned(),
        "sort_path".to_owned(),
    ];
    assert(texts(tables@) =~= seq!["library_metadata"@, "original_files"@, "photos"@]);
    assert(texts(metadata@) =~= seq!["key"@, "value"@]);
    assert(texts(originals@) =~= seq![
        "id"@,
        "relative_path"@,
        "kind"@,
        "size"@,
        "mtime_ms"@,
        "available"@,
        "inspection_error"@,
    ]);
    assert(texts(photos@) =~= seq![
        "id"@,
        "raw_original_id"@,
        "jpeg_original_id"@,
        "ambiguous"@,
        "available"@,
        "preview_state"@,
        "preview_source"@,
        "sort_path"@,
    ]);
    same_texts(&facts.tables, &tables) && same_texts(&facts.metadata_columns, &metadata)
        && same_texts(&facts.original_columns, &originals) && same_texts(
        &facts.photo_columns,
        &photos,
    )
}

/// Accepts a database without a version: it has exactly the expected tables and
/// columns, and all of its rows are sound.
pub fn validate_legacy_v0(facts: &UnversionedFacts) -> (result: Result<(), PersistenceError>)
    ensures
        result == unversioned(*facts),
{
    if !has_expected_shape(facts) {
        return Err(PersistenceError::UnsupportedSchema);
    }
    let mut i: usize = 0;
    while i < facts.originals.len()
        invariant
            i <= facts.originals.len(),
            expected_shape(*facts),
            forall|j: int| 0 <= j < i ==> original_sound(#[trigger] facts.originals@[j]),
        decreases facts.originals.len() - i,
    {
        if !is_sound_original(&facts.originals[i]) {
            assert(!original_sound(facts.originals@[i as int]));
            return Err(PersistenceError::InvalidLegacyData);
        }
        i = i + 1;
    }
    let mut k: usize = 0;
    while k < facts.photos.len()
        invariant
            k <= facts.photos.len(),
            expected_shape(*facts),
            forall|j: int|
                0 <= j < facts.originals@.len() ==> original_sound(#[trigger] facts.originals@[j]),
            forall|j: int|
                0 <= j < k ==> photo_sound(#[trigger] facts.photos@[j], facts.originals@),
        decreases facts.photos.len() - k,
    {
        if !is_sound_photo(&facts.photos[k], &facts.originals) {
            assert(!photo_sound(facts.photos@[k as int], facts.originals@));
            return Err(PersistenceError::InvalidLegacyData);
        }
        k = k + 1;
    }
    Ok(())
}

/// A database without a version is one of the old ones only where its tables and columns
/// are theirs; every Original File in it has an identity, a path, a kind that is known,
/// a size and a time that are not below zero.
pub proof fn law_old_originals_are_sound(
    facts: UnversionedFacts,
    result: Result<(), PersistenceError>,
    i: int,
)
    requires
        call_ensures(validate_legacy_v0, (&facts,), result),
        0 <= i < facts.originals.len(),
        result is Ok,
    ensures
        facts.tables.len() == 3,
        facts.metadata_columns.len() == 2,
        facts.original_columns.len() == 7,
        facts.photo_columns.len() == 8,
        ({
            let row = facts.originals@[i];
            &&& row.id matches StoredValue::Text(text) && text@.len() > 0
            &&& row.relative_path matches StoredValue::Text(text) && text@.len() > 0
            &&& row.kind matches StoredValue::Text(text) ==> text@ == "raw"@ || text@ == "jpeg"@
            &&& row.kind is Text || row.kind is Null
            &&& row.size matches StoredValue::Integer(n) && n >= 0
            &&& row.mtime_ms is Integer || row.mtime_ms is Number
            &&& row.mtime_ms matches StoredValue::Integer(n) ==> n >= 0
            &&& row.available matches StoredValue::Integer(n) && (n == 0 || n == 1)
        }),
{
    lemma_shape(facts);
    assert(original_sound(facts.originals@[i]));
    let row = facts.originals@[i];
    let names = seq!["raw"@, "jpeg"@];
    if row.kind is Text {
        let text = row.kind->Text_0@;
        assert(names.contains(text));
        let k = choose|k: int| 0 <= k < names.len() && names[k] == text;
        assert(k == 0 || k == 1);
    }
}

proof fn lemma_shape(facts: UnversionedFacts)
    requires
        expected_shape(facts),
    ensures
        facts.tables.len() == 3,
        facts.metadata_columns.len() == 2,
        facts.original_columns.len() == 7,
        facts.photo_columns.len() == 8,
{
    assert(texts(facts.tables@).len() == facts.tables.len());
    assert(texts(facts.metadata_columns@).len() == facts.metadata_columns.len());
    assert(texts(facts.original_columns@).len() == facts.original_columns.len());
    assert(texts(facts.photo_columns@).len() == facts.photo_columns.len());
}

/// Every Photo in an old database has an identity and a sort path, flags that are none or
/// one, a state and a source that are known, and refers only to Original Files that are
/// there.
pub proof fn law_old_photos_are_sound(
    facts: UnversionedFacts,
    result: Result<(), PersistenceError>,
    i: int,
)
    requires
        call_ensures(validate_legacy_v0, (&facts,), result),
        0 <= i < facts.photos.len(),
        result is Ok,
    ensures
        ({
            let row = facts.photos@[i];
            &&& row.id matches StoredValue::Text(text) && text@.len() > 0
            &&& row.ambiguous matches StoredValue::Integer(n) && (n == 0 || n == 1)
            &&& row.available matches StoredValue::Integer(n) && (n == 0 || n == 1)
            &&& row.preview_state is Text || row.preview_state is Null
            &&& row.preview_state matches StoredValue::Text(text) ==> text@
                == "inspection-pending"@ || text@ == "ready"@ || text@ == "failed"@ || text@
                == "unavailable"@
            &&& row.preview_source is Text || row.preview_source is Null
            &&& row.preview_source matches StoredValue::Text(text) ==> text@ == "matching-jpeg"@
                || text@ == "embedded-raw-jpeg"@
            &&& row.sort_path is Text
            &&& row.raw_original_id is Text || row.raw_original_id is Null
            &&& row.raw_original_id matches StoredValue::Text(text) ==> exists|k: int|
                0 <= k < facts.originals.len() && (#[trigger] facts.originals@[k]).id is Text
                    && facts.originals@[k].id->Text_0@ == text@
            &&& row.jpeg_original_id is Text || row.jpeg_original_id is Null
            &&& row.jpeg_original_id matches StoredValue::Text(text) ==> exists|k: int|
                0 <= k < facts.originals.len() && (#[trigger] facts.originals@[k]).id is Text
                    && facts.originals@[k].id->Text_0@ == text@
        }),
{
    let row = facts.photos@[i];
    assert(photo_sound(row, facts.originals@));
    let states = seq!["inspection-pending"@, "ready"@, "failed"@, "unavailable"@];
    if row.preview_state is Text {
        let text = row.preview_state->Text_0@;
        assert(states.contains(text));
        let k = choose|k: int| 0 <= k < states.len() && states[k] == text;
        assert(k == 0 || k == 1 || k == 2 || k == 3);
    }
    let sources = seq!["matching-jpeg"@, "embedded-raw-jpeg"@];
    if row.preview_source is Text {
        let text = row.preview_source->Text_0@;
        assert(sources.contains(text));
        let k = choose|k: int| 0 <= k < sources.len() && sources[k] == text;
        assert(k == 0 || k == 1);
    }
}

/// A database from before versions is taken exactly where it has the three old tables with
/// their columns and every row of them is sound. One of another shape is not supported,
/// and one with an unsound row is told as such.
pub proof fn law_old_databases_are_taken_where_sound(
    facts: UnversionedFacts,
    result: Result<(), PersistenceError>,
)
    requires
        call_ensures(validate_legacy_v0, (&facts,), result),
    ensures
        ({
            let shaped = texts(facts.tables@) == seq![
                "library_metadata"@,
                "original_files"@,
                "photos"@,
            ] && texts(facts.metadata_columns@) == seq!["key"@, "value"@] && texts(
                facts.original_columns@,
            ) == seq![
                "id"@,
                "relative_path"@,
                "kind"@,
                "size"@,
                "mtime_ms"@,
                "available"@,
                "inspection_error"@,
            ] && texts(facts.photo_columns@) == seq![
                "id"@,
                "raw_original_id"@,
                "jpeg_original_id"@,
                "ambiguous"@,
                "available"@,
                "preview_state"@,
                "preview_source"@,
                "sort_path"@,
            ];
            let originals = forall|i: int|
                0 <= i < facts.originals.len() ==> {
                    let row = #[trigger] facts.originals@[i];
                    &&& row.id is Text && row.id->Text_0@.len() > 0
                    &&& row.relative_path is Text && row.relative_path->Text_0@.len() > 0
                    &&& row.kind is Null || (row.kind is Text && (row.kind->Text_0@ == "raw"@
                        || row.kind->Text_0@ == "jpeg"@))
                    &&& row.size is Integer && row.size->Integer_0 >= 0
                    &&& (row.mtime_ms is Integer && row.mtime_ms->Integer_0 >= 0) || (
                    row.mtime_ms is Number && !negative(row.mtime_ms->Number_0))
                    &&& row.available is Integer && 0 <= row.available->Integer_0 <= 1
                };
            let photos = forall|i: int|
                0 <= i < facts.photos.len() ==> {
                    let row = #[trigger] facts.photos@[i];
                    &&& row.id is Text && row.id->Text_0@.len() > 0
                    &&& row.ambiguous is Integer && 0 <= row.ambiguous->Integer_0 <= 1
                    &&& row.available is Integer && 0 <= row.available->Integer_0 <= 1
                    &&& row.preview_state is Null || (row.preview_state is Text && (
                    row.preview_state->Text_0@ == "inspection-pending"@
                        || row.preview_state->Text_0@ == "ready"@ || row.preview_state->Text_0@
                        == "failed"@ || row.preview_state->Text_0@ == "unavailable"@))
                    &&& row.preview_source is Null || (row.preview_source is Text && (
                    row.preview_source->Text_0@ == "matching-jpeg"@ || row.preview_source->Text_0@
                        == "embedded-raw-jpeg"@))
                    &&& row.sort_path is Text
                    &&& refers_to_one(row.raw_original_id, facts.originals@)
                    &&& refers_to_one(row.jpeg_original_id, facts.originals@)
                };
            &&& result is Ok <==> shaped && originals && photos
            &&& !shaped ==> result->Err_0 is UnsupportedSchema
            &&& shaped && !(originals && photos) ==> result->Err_0 is InvalidLegacyData
        }),
{
    let kinds = seq!["raw"@, "jpeg"@];
    let states = seq!["inspection-pending"@, "ready"@, "failed"@, "unavailable"@];
    let sources = seq!["matching-jpeg"@, "embedded-raw-jpeg"@];
    assert forall|name: Seq<char>| #[trigger] kinds.contains(name) <==> name == "raw"@ || name
        == "jpeg"@ by {
        assert(kinds[0] == "raw"@ && kinds[1] == "jpeg"@);
    }
    assert forall|name: Seq<char>| #[trigger] states.contains(name) <==> name
        == "inspection-pending"@ || name == "ready"@ || name == "failed"@ || name
        == "unavailable"@ by {
        assert(states[0] == "inspection-pending"@ && states[1] == "ready"@ && states[2]
            == "failed"@ && states[3] == "unavailable"@);
    }
    assert forall|name: Seq<char>| #[trigger] sources.contains(name) <==> name
        == "matching-jpeg"@ || name == "embedded-raw-jpeg"@ by {
        assert(sources[0] == "matching-jpeg"@ && sources[1] == "embedded-raw-jpeg"@);
    }
    assert forall|i: int| 0 <= i < facts.originals.len() implies (original_sound(
        #[trigger] facts.originals@[i],
    ) <==> {
        let row = facts.originals@[i];
        &&& row.id is Text && row.id->Text_0@.len() > 0
        &&& row.relative_path is Text && row.relative_path->Text_0@.len() > 0
        &&& row.kind is Null || (row.kind is Text && (row.kind->Text_0@ == "raw"@
            || row.kind->Text_0@ == "jpeg"@))
        &&& row.size is Integer && row.size->Integer_0 >= 0
        &&& (row.mtime_ms is Integer && row.mtime_ms->Integer_0 >= 0) || (row.mtime_ms is Number
            && !negative(row.mtime_ms->Number_0))
        &&& row.available is Integer && 0 <= row.available->Integer_0 <= 1
    }) by {}
}

} // verus!
