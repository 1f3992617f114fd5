//! The shape of the database: what its tables and indexes are, and whether that
//! is exactly what a version of the schema says.
use crate::numeral::folded;
use crate::text::{clone_opt_text, is_text, is_white, opt_text, same_opt_text, same_text, white};
use vstd::prelude::*;
use vstd::string::*;

verus! {

/// A version of the schema.
#[derive(Clone, Copy, Debug, PartialEq, Eq, Structural)]
pub enum SchemaVersion {
    V1,
    V2,
    V3,
    V4,
    V5,
    V6,
    V7,
    V8,
    V9,
}

/// The number of a version.
pub open spec fn version_number(version: SchemaVersion) -> u32 {
    match version {
        SchemaVersion::V1 => 1,
        SchemaVersion::V2 => 2,
        SchemaVersion::V3 => 3,
        SchemaVersion::V4 => 4,
        SchemaVersion::V5 => 5,
        SchemaVersion::V6 => 6,
        SchemaVersion::V7 => 7,
        SchemaVersion::V8 => 8,
        SchemaVersion::V9 => 9,
    }
}

impl SchemaVersion {
    /// The number of the version, which is the database's user version.
    pub fn number(self) -> (number: u32)
        ensures
            number == version_number(self),
    {
        match self {
            SchemaVersion::V1 => 1,
            SchemaVersion::V2 => 2,
            SchemaVersion::V3 => 3,
            SchemaVersion::V4 => 4,
            SchemaVersion::V5 => 5,
            SchemaVersion::V6 => 6,
            SchemaVersion::V7 => 7,
            SchemaVersion::V8 => 8,
            SchemaVersion::V9 => 9,
        }
    }

    /// The manifest of the version out of all of them, the first version first.
    pub fn manifest<'a>(self, manifests: &'a Vec<SchemaManifest>) -> (manifest: Option<
        &'a SchemaManifest,
    >)
        ensures
            match manifest {
                Some(found) => version_number(self) <= manifests.len() && *found
                    == manifests@[version_number(self) - 1],
                None => version_number(self) > manifests.len(),
            },
    {
        let index: usize = (self.number() - 1) as usize;
        if index < manifests.len() {
            Some(&manifests[index])
        } else {
            None
        }
    }
}

/// The version that a number stands for.
pub fn schema_version(number: u32) -> (version: Option<SchemaVersion>)
    ensures
        match version {
            Some(found) => version_number(found) == number,
            None => number == 0 || number > 9,
        },
{
    match number {
        1 => Some(SchemaVersion::V1),
        2 => Some(SchemaVersion::V2),
        3 => Some(SchemaVersion::V3),
        4 => Some(SchemaVersion::V4),
        5 => Some(SchemaVersion::V5),
        6 => Some(SchemaVersion::V6),
        7 => Some(SchemaVersion::V7),
        8 => Some(SchemaVersion::V8),
        9 => Some(SchemaVersion::V9),
        _ => None,
    }
}

/// The database is not what a version of the schema says.
#[derive(Clone, Copy, Debug, PartialEq, Eq, Structural)]
pub struct SchemaError;

impl SchemaError {
    /// The text shown for the error.
    pub fn message(&self) -> (message: String)
        ensures
            message@ == "SQLite schema is unsupported"@,
    {
        "SQLite schema is unsupported".to_owned()
    }
}

/// A text in lower case, as [`str::to_lowercase`] gives it.
pub uninterp spec fn lower_case(text: Seq<char>) -> Seq<char>;

/// Whether every character of a text is an ASCII one.
pub open spec fn ascii(text: Seq<char>) -> bool {
    forall|i: int| 0 <= i < text.len() ==> (#[trigger] text[i] as u32) < 128
}

/// Calls [`str::to_lowercase`], which follows the Unicode tables for lower case.
/// Claimed of it: the result depends on the text alone, and in a text of ASCII
/// characters exactly the letters `A` to `Z` become `a` to `z`.
#[verifier::external_body]
fn text_to_lower_case(text: &String) -> (lower: String)
    ensures
        lower@ == lower_case(text@),
        ascii(text@) ==> lower@ == folded(text@),
{
    text.to_lowercase()
}

/// A character that a compacted statement keeps: no white space and no mark that
/// names are quoted with.
pub open spec fn significant(c: char) -> bool {
    !white(c) && c != '"' && c != '`' && c != '[' && c != ']'
}

/// The significant characters of a text, in order.
pub open spec fn stripped(text: Seq<char>) -> Seq<char>
    decreases text.len(),
{
    if text.len() == 0 {
        Seq::empty()
    } else if significant(text.last()) {
        stripped(text.drop_last()).push(text.last())
    } else {
        stripped(text.drop_last())
    }
}

/// The significant characters of a text.
pub fn strip_sql(text: &String) -> (kept: String)
    ensures
        kept@ == stripped(text@),
{
    let len: usize = text.as_str().unicode_len();
    let mut kept: String = String::new();
    let mut i: usize = 0;
    assert(text@.take(0) =~= Seq::<char>::empty());
    while i < len
        invariant
            i <= len,
            len == text@.len(),
            kept@ == stripped(text@.take(i as int)),
        decreases len - i,
    {
        let c: char = text.as_str().get_char(i);
        proof {
            assert(text@.take(i + 1).drop_last() =~= text@.take(i as int));
            assert(text@.take(i + 1).last() == c);
        }
        if !is_white(c) && c != '"' && c != '`' && c != '[' && c != ']' {
            let piece: &str = text.as_str().substring_char(i, i + 1);
            assert(piece@ =~= seq![c]);
            assert(kept@ + seq![c] =~= kept@.push(c));
            kept.append(piece);
        }
        i = i + 1;
    }
    assert(text@.take(len as int) =~= text@);
    kept
}

/// What is compared of a statement: neither case nor spacing nor the quoting of
/// names counts.
pub fn compact_sql(value: &String) -> (compact: String)
    ensures
        compact@ == stripped(lower_case(value@)),
        ascii(value@) ==> compact@ == stripped(folded(value@)),
{
    strip_sql(&text_to_lower_case(value))
}

/// Stripping a text that was stripped changes nothing.
pub proof fn law_stripping_twice_changes_nothing(text: Seq<char>)
    ensures
        stripped(stripped(text)) == stripped(text),
    decreases text.len(),
{
    if text.len() > 0 {
        law_stripping_twice_changes_nothing(text.drop_last());
        let front = stripped(text.drop_last());
        if significant(text.last()) {
            assert(front.push(text.last()).drop_last() =~= front);
        }
    }
}

/// A column of a table.
#[derive(Clone, Debug, PartialEq, Eq)]
pub struct ColumnFacts {
    pub name: String,
    pub column_type: String,
    pub not_null: bool,
    pub default: Option<String>,
    pub primary_key: u32,
}

/// What [`ColumnFacts`] stand for.
pub struct ColumnView {
    pub name: Seq<char>,
    pub column_type: Seq<char>,
    pub not_null: bool,
    pub default: Option<Seq<char>>,
    pub primary_key: u32,
}

impl View for ColumnFacts {
    type V = ColumnView;

    open spec fn view(&self) -> ColumnView {
        ColumnView {
            name: self.name@,
            column_type: self.column_type@,
            not_null: self.not_null,
            default: opt_text(self.default),
            primary_key: self.primary_key,
        }
    }
}

/// A foreign key of a table.
#[derive(Clone, Debug, PartialEq, Eq)]
pub struct ForeignKeyFacts {
    pub table: String,
    pub from: String,
    pub to: String,
    pub on_update: String,
    pub on_delete: String,
}

/// What [`ForeignKeyFacts`] stand for.
pub struct ForeignKeyView {
    pub table: Seq<char>,
    pub from: Seq<char>,
    pub to: Seq<char>,
    pub on_update: Seq<char>,
    pub on_delete: Seq<char>,
}

impl View for ForeignKeyFacts {
    type V = ForeignKeyView;

    open spec fn view(&self) -> ForeignKeyView {
        ForeignKeyView {
            table: self.table@,
            from: self.from@,
            to: self.to@,
            on_update: self.on_update@,
            on_delete: self.on_delete@,
        }
    }
}

/// The columns and foreign keys of a table.
#[derive(Clone, Debug, PartialEq, Eq)]
pub struct TableFacts {
    pub columns: Vec<ColumnFacts>,
    pub foreign_keys: Vec<ForeignKeyFacts>,
}

/// What [`TableFacts`] stand for.
pub struct TableView {
    pub columns: Seq<ColumnView>,
    pub foreign_keys: Seq<ForeignKeyView>,
}

impl View for TableFacts {
    type V = TableView;

    open spec fn view(&self) -> TableView {
        TableView {
            columns: Seq::new(self.columns@.len(), |i: int| self.columns@[i]@),
            foreign_keys: Seq::new(self.foreign_keys@.len(), |i: int| self.foreign_keys@[i]@),
        }
    }
}

/// What optional table facts stand for.
pub open spec fn opt_table(table: Option<TableFacts>) -> Option<TableView> {
    match table {
        Some(facts) => Some(facts@),
        None => None,
    }
}

/// An object of the schema. Only a table has columns and foreign keys.
#[derive(Clone, Debug, PartialEq, Eq)]
pub struct SchemaObject {
    pub kind: String,
    pub name: String,
    pub sql: String,
    pub table: Option<TableFacts>,
}

/// What a [`SchemaObject`] stands for.
pub struct ObjectView {
    pub kind: Seq<char>,
    pub name: Seq<char>,
    pub sql: Seq<char>,
    pub table: Option<TableView>,
}

impl View for SchemaObject {
    type V = ObjectView;

    open spec fn view(&self) -> ObjectView {
        ObjectView {
            kind: self.kind@,
            name: self.name@,
            sql: self.sql@,
            table: opt_table(self.table),
        }
    }
}

/// The user version of a database and the objects of its schema, by type and
/// name.
#[derive(Clone, Debug, PartialEq, Eq)]
pub struct SchemaManifest {
    pub user_version: u32,
    pub objects: Vec<SchemaObject>,
}

/// What a [`SchemaManifest`] stands for.
pub struct ManifestView {
    pub user_version: u32,
    pub objects: Seq<ObjectView>,
}

/// What a list of objects stands for.
pub open spec fn objects_view(objects: Seq<SchemaObject>) -> Seq<ObjectView> {
    Seq::new(objects.len(), |i: int| objects[i]@)
}

impl View for SchemaManifest {
    type V = ManifestView;

    open spec fn view(&self) -> ManifestView {
        ManifestView { user_version: self.user_version, objects: objects_view(self.objects@) }
    }
}

fn same_column(left: &ColumnFacts, right: &ColumnFacts) -> (same: bool)
    ensures
        same == (left@ == right@),
{
    same_text(&left.name, &right.name) && same_text(&left.column_type, &right.column_type)
        && left.not_null == right.not_null && same_opt_text(&left.default, &right.default)
        && left.primary_key == right.primary_key
}

fn same_foreign_key(left: &ForeignKeyFacts, right: &ForeignKeyFacts) -> (same: bool)
    ensures
        same == (left@ == right@),
{
    same_text(&left.table, &right.table) && same_text(&left.from, &right.from) && same_text(
        &left.to,
        &right.to,
    ) && same_text(&left.on_update, &right.on_update) && same_text(
        &left.on_delete,
        &right.on_delete,
    )
}

fn same_table(left: &TableFacts, right: &TableFacts) -> (same: bool)
    ensures
        same == (left@ == right@),
{
    if left.columns.len() != right.columns.len() || left.foreign_keys.len()
        != right.foreign_keys.len() {
        assert(left@.columns.len() != right@.columns.len() || left@.foreign_keys.len()
            != right@.foreign_keys.len());
        return false;
    }
    let mut i: usize = 0;
    while i < left.columns.len()
        invariant
            i <= left.columns.len(),
            left.columns.len() == right.columns.len(),
            forall|j: int| 0 <= j < i ==> left@.columns[j] == right@.columns[j],
        decreases left.columns.len() - i,
    {
        assert(left@.columns[i as int] == left.columns@[i as int]@);
        assert(right@.columns[i as int] == right.columns@[i as int]@);
        if !same_column(&left.columns[i], &right.columns[i]) {
            return false;
        }
        i = i + 1;
    }
    let mut k: usize = 0;
    while k < left.foreign_keys.len()
        invariant
            k <= left.foreign_keys.len(),
            left.foreign_keys.len() == right.foreign_keys.len(),
            forall|j: int| 0 <= j < k ==> left@.foreign_keys[j] == right@.foreign_keys[j],
        decreases left.foreign_keys.len() - k,
    {
        assert(left@.foreign_keys[k as int] == left.foreign_keys@[k as int]@);
        assert(right@.foreign_keys[k as int] == right.foreign_keys@[k as int]@);
        if !same_foreign_key(&left.foreign_keys[k], &right.foreign_keys[k]) {
            return false;
        }
        k = k + 1;
    }
    assert(left@.columns =~= right@.columns);
    assert(left@.foreign_keys =~= right@.foreign_keys);
    true
}

fn same_object(left: &SchemaObject, right: &SchemaObject) -> (same: bool)
    ensures
        same == (left@ == right@),
{
    let tables: bool = match (&left.table, &right.table) {
        (Some(a), Some(b)) => same_table(a, b),
        (None, None) => true,
        _ => false,
    };
    same_text(&left.kind, &right.kind) && same_text(&left.name, &right.name) && same_text(
        &left.sql,
        &right.sql,
    ) && tables
}

fn same_manifest(left: &SchemaManifest, right: &SchemaManifest) -> (same: bool)
    ensures
        same == (left@ == right@),
{
    if left.user_version != right.user_version || left.objects.len() != right.objects.len() {
        assert(left@.user_version != right@.user_version || left@.objects.len()
            != right@.objects.len());
        return false;
    }
    let mut i: usize = 0;
    while i < left.objects.len()
        invariant
            i <= left.objects.len(),
            left.objects.len() == right.objects.len(),
            forall|j: int| 0 <= j < i ==> left@.objects[j] == right@.objects[j],
        decreases left.objects.len() - i,
    {
        assert(left@.objects[i as int] == left.objects@[i as int]@);
        assert(right@.objects[i as int] == right.objects@[i as int]@);
        if !same_object(&left.objects[i], &right.objects[i]) {
            return false;
        }
        i = i + 1;
    }
    assert(left@.objects =~= right@.objects);
    true
}

fn clone_table(table: &TableFacts) -> (copy: TableFacts)
    ensures
        copy@ == table@,
{
    let mut columns: Vec<ColumnFacts> = Vec::new();
    let mut i: usize = 0;
    while i < table.columns.len()
        invariant
            i <= table.columns.len(),
            columns.len() == i,
            forall|j: int| 0 <= j < i ==> (#[trigger] columns@[j])@ == table.columns@[j]@,
        decreases table.columns.len() - i,
    {
        columns.push(
            ColumnFacts {
                name: table.columns[i].name.clone(),
                column_type: table.columns[i].column_type.clone(),
                not_null: table.columns[i].not_null,
                default: clone_opt_text(&table.columns[i].default),
                primary_key: table.columns[i].primary_key,
            },
        );
        i = i + 1;
    }
    let mut foreign_keys: Vec<ForeignKeyFacts> = Vec::new();
    let mut k: usize = 0;
    while k < table.foreign_keys.len()
        invariant
            k <= table.foreign_keys.len(),
            foreign_keys.len() == k,
            forall|j: int|
                0 <= j < k ==> (#[trigger] foreign_keys@[j])@ == table.foreign_keys@[j]@,
        decreases table.foreign_keys.len() - k,
    {
        foreign_keys.push(
            ForeignKeyFacts {
                table: table.foreign_keys[k].table.clone(),
                from: table.foreign_keys[k].from.clone(),
                to: table.foreign_keys[k].to.clone(),
                on_update: table.foreign_keys[k].on_update.clone(),
                on_delete: table.foreign_keys[k].on_delete.clone(),
            },
        );
        k = k + 1;
    }
    let copy: TableFacts = TableFacts { columns, foreign_keys };
    assert(copy@.columns =~= table@.columns);
    assert(copy@.foreign_keys =~= table@.foreign_keys);
    copy
}

/// What the manifest says of an object of the database: its statement compacted,
/// and columns and foreign keys where it is a table.
pub open spec fn manifest_object(stored: ObjectView) -> ObjectView {
    ObjectView {
        kind: stored.kind,
        name: stored.name,
        sql: stripped(lower_case(stored.sql)),
        table: if stored.kind == "table"@ {
            stored.table
        } else {
            None
        },
    }
}

/// What the manifest says of the objects of the database.
pub open spec fn manifest_objects(stored: Seq<ObjectView>) -> Seq<ObjectView> {
    Seq::new(stored.len(), |i: int| manifest_object(stored[i]))
}

/// The manifest of a database out of its user version and the stored objects,
/// by type and name.
pub fn schema_manifest(user_version: u32, stored: &Vec<SchemaObject>) -> (manifest: SchemaManifest)
    ensures
        manifest@ == (ManifestView {
            user_version,
            objects: manifest_objects(objects_view(stored@)),
        }),
{
    let ghost goal = manifest_objects(objects_view(stored@));
    let mut objects: Vec<SchemaObject> = Vec::new();
    let mut i: usize = 0;
    while i < stored.len()
        invariant
            i <= stored.len(),
            goal == manifest_objects(objects_view(stored@)),
            objects_view(objects@) == goal.take(i as int),
        decreases stored.len() - i,
    {
        let table: Option<TableFacts> = if is_text(&stored[i].kind, "table") {
            match &stored[i].table {
                Some(table) => Some(clone_table(table)),
                None => None,
            }
        } else {
            None
        };
        let object: SchemaObject = SchemaObject {
            kind: stored[i].kind.clone(),
            name: stored[i].name.clone(),
            sql: compact_sql(&stored[i].sql),
            table,
        };
        proof {
            assert(object@ == goal[i as int]);
            assert(objects_view(objects@.push(object)) =~= objects_view(objects@).push(object@));
            assert(goal.take(i + 1) =~= goal.take(i as int).push(goal[i as int]));
        }
        objects.push(object);
        i = i + 1;
    }
    assert(goal.take(goal.len() as int) =~= goal);
    SchemaManifest { user_version, objects }
}

/// Accepts a database whose manifest is exactly the expected one. Either is none
/// where it could not be read.
pub fn validate_canonical_schema(
    observed: &Option<SchemaManifest>,
    expected: Option<&SchemaManifest>,
) -> (result: Result<(), SchemaError>)
    ensures
        result is Ok <==> *observed is Some && expected is Some && (*observed)->0@
            == expected->0@,
{
    match (observed, expected) {
        (Some(observed), Some(expected)) => if same_manifest(observed, expected) {
            Ok(())
        } else {
            Err(SchemaError)
        },
        _ => Err(SchemaError),
    }
}

/// A database with an object more than its manifest, or with one whose compacted
/// statement differs, is not accepted.
pub proof fn law_manifests_are_exact(
    user_version: u32,
    stored: Seq<ObjectView>,
    expected: ManifestView,
    i: int,
)
    requires
        stored.len() != expected.objects.len() || (0 <= i < stored.len() && stripped(
            lower_case(stored[i].sql),
        ) != expected.objects[i].sql),
    ensures
        (ManifestView { user_version, objects: manifest_objects(stored) }) != expected,
{
    if stored.len() == expected.objects.len() {
        assert(manifest_objects(stored)[i].sql != expected.objects[i].sql);
    }
}

/// A schema is canonical only where the version, and every object by its kind, name and
/// definition, and every column and foreign key of it, are those expected.
pub proof fn law_canonical_schemas_agree_in_everything(
    observed: SchemaManifest,
    expected: SchemaManifest,
    result: Result<(), SchemaError>,
    i: int,
    c: int,
)
    requires
        call_ensures(validate_canonical_schema, (&Some(observed), Some(&expected)), result),
        result is Ok,
    ensures
        observed.user_version == expected.user_version,
        observed.objects.len() == expected.objects.len(),
        0 <= i < observed.objects.len() ==> {
            let left = observed.objects@[i];
            let right = expected.objects@[i];
            &&& left.kind@ == right.kind@
            &&& left.name@ == right.name@
            &&& left.sql@ == right.sql@
            &&& left.table is Some == right.table is Some
            &&& left.table is Some ==> {
                let a = left.table->0;
                let b = right.table->0;
                &&& a.columns.len() == b.columns.len()
                &&& a.foreign_keys.len() == b.foreign_keys.len()
                &&& 0 <= c < a.columns.len() ==> a.columns@[c].name@ == b.columns@[c].name@
                    && a.columns@[c].column_type@ == b.columns@[c].column_type@
                    && a.columns@[c].not_null == b.columns@[c].not_null && opt_text(
                    a.columns@[c].default,
                ) == opt_text(b.columns@[c].default) && a.columns@[c].primary_key
                    == b.columns@[c].primary_key
                &&& 0 <= c < a.foreign_keys.len() ==> a.foreign_keys@[c].table@
                    == b.foreign_keys@[c].table@ && a.foreign_keys@[c].from@
                    == b.foreign_keys@[c].from@ && a.foreign_keys@[c].to@
                    == b.foreign_keys@[c].to@ && a.foreign_keys@[c].on_update@
                    == b.foreign_keys@[c].on_update@ && a.foreign_keys@[c].on_delete@
                    == b.foreign_keys@[c].on_delete@
            }
        },
{
    assert(observed@ == expected@);
    assert(observed@.objects.len() == observed.objects.len());
    assert(expected@.objects.len() == expected.objects.len());
    if 0 <= i < observed.objects.len() {
        assert(observed@.objects[i] == observed.objects@[i]@);
        assert(expected@.objects[i] == expected.objects@[i]@);
        let left = observed.objects@[i];
        let right = expected.objects@[i];
        if left.table is Some {
            let a = left.table->0;
            let b = right.table->0;
            assert(a@ == b@);
            assert(a@.columns.len() == a.columns.len());
            assert(b@.columns.len() == b.columns.len());
            assert(a@.foreign_keys.len() == a.foreign_keys.len());
            assert(b@.foreign_keys.len() == b.foreign_keys.len());
            if 0 <= c < a.columns.len() {
                assert(a@.columns[c] == a.columns@[c]@);
                assert(b@.columns[c] == b.columns@[c]@);
            }
            if 0 <= c < a.foreign_keys.len() {
                assert(a@.foreign_keys[c] == a.foreign_keys@[c]@);
                assert(b@.foreign_keys[c] == b.foreign_keys@[c]@);
            }
        }
    }
}

/// A stripped text holds the characters that count, in their order: one character more
/// comes last, unless it is white or a quote or a bracket of a name.
pub proof fn law_stripping_keeps_what_counts(text: Seq<char>, c: char)
    ensures
        stripped(Seq::<char>::empty()).len() == 0,
        white(c) || c == '"' || c == '`' || c == '[' || c == ']' ==> stripped(text.push(c))
            == stripped(text),
        !white(c) && c != '"' && c != '`' && c != '[' && c != ']' ==> stripped(text.push(c))
            == stripped(text).push(c),
{
    assert(text.push(c).drop_last() =~= text);
    assert(text.push(c).last() == c);
}

/// Versions of the schema are read by their numbers from one to nine.
pub proof fn law_schema_versions_are_numbered(number: u32, version: Option<SchemaVersion>)
    requires
        call_ensures(schema_version, (number,), version),
    ensures
        version is Some <==> 1 <= number <= 9,
        number == 1 <==> version == Some(SchemaVersion::V1),
        number == 2 <==> version == Some(SchemaVersion::V2),
        number == 3 <==> version == Some(SchemaVersion::V3),
        number == 4 <==> version == Some(SchemaVersion::V4),
        number == 5 <==> version == Some(SchemaVersion::V5),
        number == 6 <==> version == Some(SchemaVersion::V6),
        number == 7 <==> version == Some(SchemaVersion::V7),
        number == 8 <==> version == Some(SchemaVersion::V8),
        number == 9 <==> version == Some(SchemaVersion::V9),
{
}

/// A version is told by its number, and its manifest stands at that place of the list.
pub proof fn law_versions_find_their_manifest(
    number: u32,
    version: SchemaVersion,
    told: u32,
    manifests: Vec<SchemaManifest>,
    manifest: Option<&SchemaManifest>,
)
    requires
        call_ensures(schema_version, (number,), Some(version)),
        call_ensures(SchemaVersion::number, (version,), told),
        call_ensures(SchemaVersion::manifest, (version, &manifests), manifest),
    ensures
        told == number,
        manifest is Some <==> number <= manifests.len(),
        manifest is Some ==> *manifest->0 == manifests@[number - 1],
{
}

/// The manifest of a database tells every stored object in its place: by kind and name,
/// with its statement compacted, and with columns and foreign keys exactly where it is a
/// table.
pub proof fn law_manifests_tell_what_is_stored(
    user_version: u32,
    stored: Vec<SchemaObject>,
    manifest: SchemaManifest,
    i: int,
)
    requires
        call_ensures(schema_manifest, (user_version, &stored), manifest),
        0 <= i < stored.len(),
    ensures
        manifest.user_version == user_version,
        manifest.objects.len() == stored.len(),
        manifest.objects@[i].kind@ == stored@[i].kind@,
        manifest.objects@[i].name@ == stored@[i].name@,
        manifest.objects@[i].sql@ == stripped(lower_case(stored@[i].sql@)),
        manifest.objects@[i].table is Some <==> stored@[i].table is Some && stored@[i].kind@
            == "table"@,
        manifest.objects@[i].table is Some ==> manifest.objects@[i].table->0@
            == stored@[i].table->0@,
{
    let told = objects_view(manifest.objects@);
    assert(told == manifest_objects(objects_view(stored@)));
    assert(told.len() == manifest.objects.len());
    assert(told[i] == manifest.objects@[i]@);
    assert(objects_view(stored@)[i] == stored@[i]@);
    assert(manifest.objects@[i]@ == manifest_object(stored@[i]@));
}

} // verus!
