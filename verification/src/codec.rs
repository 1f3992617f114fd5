//! Values that are stored by name, and how names and values answer each other.
use crate::numeral::is_digit;
use crate::text::is_text;
use vstd::prelude::*;
use vstd::string::*;

verus! {

/// What a Photographer decided about a Photo.
#[derive(Clone, Copy, Debug, PartialEq, Eq, Structural)]
pub enum SelectionState {
    Undecided,
    Selected,
    Rejected,
}

/// The stored name of a Selection State.
pub open spec fn selection_name(value: SelectionState) -> Seq<char> {
    match value {
        SelectionState::Undecided => "undecided"@,
        SelectionState::Selected => "selected"@,
        SelectionState::Rejected => "rejected"@,
    }
}

/// The value that a stored name of a Selection State stands for.
pub open spec fn selection_of(text: Seq<char>) -> Option<SelectionState> {
    if text == "undecided"@ {
        Some(SelectionState::Undecided)
    } else if text == "selected"@ {
        Some(SelectionState::Selected)
    } else if text == "rejected"@ {
        Some(SelectionState::Rejected)
    } else {
        None
    }
}

/// The stored name of a Selection State.
pub fn selection_state_value(value: SelectionState) -> (stored: &'static str)
    ensures
        stored@ == selection_name(value),
{
    match value {
        SelectionState::Undecided => "undecided",
        SelectionState::Selected => "selected",
        SelectionState::Rejected => "rejected",
    }
}

/// Reads the stored name of a Selection State; any other text is no name.
pub fn parse_selection_state(text: &String) -> (value: Option<SelectionState>)
    ensures
        value == selection_of(text@),
{
    if is_text(text, "undecided") {
        Some(SelectionState::Undecided)
    } else if is_text(text, "selected") {
        Some(SelectionState::Selected)
    } else if is_text(text, "rejected") {
        Some(SelectionState::Rejected)
    } else {
        None
    }
}

/// Every stored name of a Selection State reads back as the value it was written for.
pub proof fn law_selection_name_reads_back(value: SelectionState)
    ensures
        selection_of(selection_name(value)) == Some(value),
{
    reveal_strlit("undecided");
    reveal_strlit("selected");
    reveal_strlit("rejected");
    assert("undecided"@.len() != "selected"@.len());
    assert("undecided"@.len() != "rejected"@.len());
    assert("selected"@[0] != "rejected"@[0]);
}

/// The kind of an Original File.
#[derive(Clone, Copy, Debug, PartialEq, Eq, Structural)]
pub enum OriginalKind {
    Raw,
    Jpeg,
}

/// The stored name of the kind of an Original File.
pub open spec fn kind_name(value: OriginalKind) -> Seq<char> {
    match value {
        OriginalKind::Raw => "raw"@,
        OriginalKind::Jpeg => "jpeg"@,
    }
}

/// The value that a stored name of the kind of an Original File stands for.
pub open spec fn kind_of(text: Seq<char>) -> Option<OriginalKind> {
    if text == "raw"@ {
        Some(OriginalKind::Raw)
    } else if text == "jpeg"@ {
        Some(OriginalKind::Jpeg)
    } else {
        None
    }
}

/// The stored name of the kind of an Original File.
pub fn original_kind_name(value: OriginalKind) -> (stored: &'static str)
    ensures
        stored@ == kind_name(value),
{
    match value {
        OriginalKind::Raw => "raw",
        OriginalKind::Jpeg => "jpeg",
    }
}

/// Reads the stored name of the kind of an Original File; any other text is no name.
pub fn parse_kind(text: &String) -> (value: Option<OriginalKind>)
    ensures
        value == kind_of(text@),
{
    if is_text(text, "raw") {
        Some(OriginalKind::Raw)
    } else if is_text(text, "jpeg") {
        Some(OriginalKind::Jpeg)
    } else {
        None
    }
}

/// Every stored name of the kind of an Original File reads back as the value it was written for.
pub proof fn law_kind_name_reads_back(value: OriginalKind)
    ensures
        kind_of(kind_name(value)) == Some(value),
{
    reveal_strlit("raw");
    reveal_strlit("jpeg");
    assert("raw"@.len() != "jpeg"@.len());
}

/// Why an Original File could not be used.
#[derive(Clone, Copy, Debug, PartialEq, Eq, Structural)]
pub enum OriginalErrorCategory {
    Unreadable,
    Changed,
}

/// The stored name of an error category.
pub open spec fn category_name(value: OriginalErrorCategory) -> Seq<char> {
    match value {
        OriginalErrorCategory::Unreadable => "unreadable"@,
        OriginalErrorCategory::Changed => "changed"@,
    }
}

/// The value that a stored name of an error category stands for.
pub open spec fn category_of(text: Seq<char>) -> Option<OriginalErrorCategory> {
    if text == "unreadable"@ {
        Some(OriginalErrorCategory::Unreadable)
    } else if text == "changed"@ {
        Some(OriginalErrorCategory::Changed)
    } else {
        None
    }
}

/// The stored name of an error category.
pub fn error_category_name(value: OriginalErrorCategory) -> (stored: &'static str)
    ensures
        stored@ == category_name(value),
{
    match value {
        OriginalErrorCategory::Unreadable => "unreadable",
        OriginalErrorCategory::Changed => "changed",
    }
}

/// Reads the stored name of an error category; any other text is no name.
pub fn parse_category(text: &String) -> (value: Option<OriginalErrorCategory>)
    ensures
        value == category_of(text@),
{
    if is_text(text, "unreadable") {
        Some(OriginalErrorCategory::Unreadable)
    } else if is_text(text, "changed") {
        Some(OriginalErrorCategory::Changed)
    } else {
        None
    }
}

/// Every stored name of an error category reads back as the value it was written for.
pub proof fn law_category_name_reads_back(value: OriginalErrorCategory)
    ensures
        category_of(category_name(value)) == Some(value),
{
    reveal_strlit("unreadable");
    reveal_strlit("changed");
    assert("unreadable"@.len() != "changed"@.len());
}

/// What is known of when an Original File was captured.
#[derive(Clone, Copy, Debug, PartialEq, Eq, Structural)]
pub enum CaptureMetadataState {
    Pending,
    Known,
    Missing,
    Invalid,
    Failed,
}

/// The stored name of a capture state.
pub open spec fn capture_name(value: CaptureMetadataState) -> Seq<char> {
    match value {
        CaptureMetadataState::Pending => "pending"@,
        CaptureMetadataState::Known => "known"@,
        CaptureMetadataState::Missing => "missing"@,
        CaptureMetadataState::Invalid => "invalid"@,
        CaptureMetadataState::Failed => "failed"@,
    }
}

/// The value that a stored name of a capture state stands for.
pub open spec fn capture_of(text: Seq<char>) -> Option<CaptureMetadataState> {
    if text == "pending"@ {
        Some(CaptureMetadataState::Pending)
    } else if text == "known"@ {
        Some(CaptureMetadataState::Known)
    } else if text == "missing"@ {
        Some(CaptureMetadataState::Missing)
    } else if text == "invalid"@ {
        Some(CaptureMetadataState::Invalid)
    } else if text == "failed"@ {
        Some(CaptureMetadataState::Failed)
    } else {
        None
    }
}

/// The stored name of a capture state.
pub fn capture_state_name(value: CaptureMetadataState) -> (stored: &'static str)
    ensures
        stored@ == capture_name(value),
{
    match value {
        CaptureMetadataState::Pending => "pending",
        CaptureMetadataState::Known => "known",
        CaptureMetadataState::Missing => "missing",
        CaptureMetadataState::Invalid => "invalid",
        CaptureMetadataState::Failed => "failed",
    }
}

/// Reads the stored name of a capture state; any other text is no name.
pub fn parse_capture_state(text: &String) -> (value: Option<CaptureMetadataState>)
    ensures
        value == capture_of(text@),
{
    if is_text(text, "pending") {
        Some(CaptureMetadataState::Pending)
    } else if is_text(text, "known") {
        Some(CaptureMetadataState::Known)
    } else if is_text(text, "missing") {
        Some(CaptureMetadataState::Missing)
    } else if is_text(text, "invalid") {
        Some(CaptureMetadataState::Invalid)
    } else if is_text(text, "failed") {
        Some(CaptureMetadataState::Failed)
    } else {
        None
    }
}

/// Every stored name of a capture state reads back as the value it was written for.
pub proof fn law_capture_name_reads_back(value: CaptureMetadataState)
    ensures
        capture_of(capture_name(value)) == Some(value),
{
    reveal_strlit("pending");
    reveal_strlit("known");
    reveal_strlit("missing");
    reveal_strlit("invalid");
    reveal_strlit("failed");
    assert("pending"@.len() != "known"@.len());
    assert("pending"@[0] != "missing"@[0]);
    assert("pending"@[0] != "invalid"@[0]);
    assert("pending"@.len() != "failed"@.len());
    assert("known"@.len() != "missing"@.len());
    assert("known"@.len() != "invalid"@.len());
    assert("known"@.len() != "failed"@.len());
    assert("missing"@[0] != "invalid"@[0]);
    assert("missing"@.len() != "failed"@.len());
    assert("invalid"@.len() != "failed"@.len());
}

/// How far the Preview of a Photo is.
#[derive(Clone, Copy, Debug, PartialEq, Eq, Structural)]
pub enum PreviewState {
    InspectionPending,
    Ready,
    Failed,
    Unavailable,
}

/// The stored name of a Preview state.
pub open spec fn preview_name(value: PreviewState) -> Seq<char> {
    match value {
        PreviewState::InspectionPending => "inspection-pending"@,
        PreviewState::Ready => "ready"@,
        PreviewState::Failed => "failed"@,
        PreviewState::Unavailable => "unavailable"@,
    }
}

/// The value that a stored name of a Preview state stands for.
pub open spec fn preview_of(text: Seq<char>) -> Option<PreviewState> {
    if text == "inspection-pending"@ {
        Some(PreviewState::InspectionPending)
    } else if text == "ready"@ {
        Some(PreviewState::Ready)
    } else if text == "failed"@ {
        Some(PreviewState::Failed)
    } else if text == "unavailable"@ {
        Some(PreviewState::Unavailable)
    } else {
        None
    }
}

/// The stored name of a Preview state.
pub fn preview_state_name(value: PreviewState) -> (stored: &'static str)
    ensures
        stored@ == preview_name(value),
{
    match value {
        PreviewState::InspectionPending => "inspection-pending",
        PreviewState::Ready => "ready",
        PreviewState::Failed => "failed",
        PreviewState::Unavailable => "unavailable",
    }
}

/// Reads the stored name of a Preview state; any other text is no name.
pub fn parse_preview_state(text: &String) -> (value: Option<PreviewState>)
    ensures
        value == preview_of(text@),
{
    if is_text(text, "inspection-pending") {
        Some(PreviewState::InspectionPending)
    } else if is_text(text, "ready") {
        Some(PreviewState::Ready)
    } else if is_text(text, "failed") {
        Some(PreviewState::Failed)
    } else if is_text(text, "unavailable") {
        Some(PreviewState::Unavailable)
    } else {
        None
    }
}

/// Every stored name of a Preview state reads back as the value it was written for.
pub proof fn law_preview_name_reads_back(value: PreviewState)
    ensures
        preview_of(preview_name(value)) == Some(value),
{
    reveal_strlit("inspection-pending");
    reveal_strlit("ready");
    reveal_strlit("failed");
    reveal_strlit("unavailable");
    assert("inspection-pending"@.len() != "ready"@.len());
    assert("inspection-pending"@.len() != "failed"@.len());
    assert("inspection-pending"@.len() != "unavailable"@.len());
    assert("ready"@.len() != "failed"@.len());
    assert("ready"@.len() != "unavailable"@.len());
    assert("failed"@.len() != "unavailable"@.len());
}

/// Reads an optional error category: none stays none, and a text that is no name
/// is refused.
pub fn parse_error_category(value: &Option<String>) -> (category: Option<
    Option<OriginalErrorCategory>,
>)
    ensures
        category == (match *value {
            None => Some(None::<OriginalErrorCategory>),
            Some(text) => match category_of(text@) {
                Some(read) => Some(Some(read)),
                None => None,
            },
        }),
{
    match value {
        None => Some(None),
        Some(text) => match parse_category(text) {
            Some(read) => Some(Some(read)),
            None => None,
        },
    }
}

/// Reads an optional dimension of a Preview: a number that is no unsigned number
/// of 32 bits is refused.
pub fn parse_dimension(value: Option<i64>) -> (dimension: Option<Option<u32>>)
    ensures
        dimension == (match value {
            None => Some(None::<u32>),
            Some(n) => if 0 <= n <= u32::MAX {
                Some(Some(n as u32))
            } else {
                None
            },
        }),
{
    match value {
        None => Some(None),
        Some(n) => if 0 <= n && n <= u32::MAX as i64 {
            Some(Some(n as u32))
        } else {
            None
        },
    }
}

/// What a Preview is made from.
#[derive(Clone, Copy, Debug, PartialEq, Eq, Structural)]
pub enum PreviewSource {
    JpegOriginal,
    RawEmbeddedJpeg,
}

/// What the Preview of an Original File of a kind is made from.
pub open spec fn source_of_kind(kind: OriginalKind) -> PreviewSource {
    match kind {
        OriginalKind::Raw => PreviewSource::RawEmbeddedJpeg,
        OriginalKind::Jpeg => PreviewSource::JpegOriginal,
    }
}

/// The name that a source of Previews had in stored rows.
pub open spec fn legacy_source_name(source: PreviewSource) -> Seq<char> {
    match source {
        PreviewSource::JpegOriginal => "matching-jpeg"@,
        PreviewSource::RawEmbeddedJpeg => "embedded-raw-jpeg"@,
    }
}

impl OriginalKind {
    /// What the Preview of an Original File of this kind is made from.
    pub fn preview_source(self) -> (source: PreviewSource)
        ensures
            source == source_of_kind(self),
    {
        match self {
            OriginalKind::Raw => PreviewSource::RawEmbeddedJpeg,
            OriginalKind::Jpeg => PreviewSource::JpegOriginal,
        }
    }
}

impl PreviewSource {
    /// The name that a source of Previews had in stored rows.
    pub fn legacy_database_name(self) -> (name: &'static str)
        ensures
            name@ == legacy_source_name(self),
    {
        match self {
            PreviewSource::JpegOriginal => "matching-jpeg",
            PreviewSource::RawEmbeddedJpeg => "embedded-raw-jpeg",
        }
    }
}

/// The metadata field that a capture time was read from.
#[derive(Clone, Copy, Debug, PartialEq, Eq, Structural)]
pub enum CaptureTimeField {
    DateTimeOriginal,
    DateTimeDigitized,
}

/// The stored name of a capture time field.
pub open spec fn time_field_name(value: CaptureTimeField) -> Seq<char> {
    match value {
        CaptureTimeField::DateTimeOriginal => "date-time-original"@,
        CaptureTimeField::DateTimeDigitized => "date-time-digitized"@,
    }
}

/// The capture time field that a stored name stands for.
pub open spec fn time_field_of(text: Seq<char>) -> Option<CaptureTimeField> {
    if text == "date-time-original"@ {
        Some(CaptureTimeField::DateTimeOriginal)
    } else if text == "date-time-digitized"@ {
        Some(CaptureTimeField::DateTimeDigitized)
    } else {
        None
    }
}

impl CaptureTimeField {
    /// The stored name of a capture time field.
    pub fn database_name(self) -> (stored: &'static str)
        ensures
            stored@ == time_field_name(self),
    {
        match self {
            CaptureTimeField::DateTimeOriginal => "date-time-original",
            CaptureTimeField::DateTimeDigitized => "date-time-digitized",
        }
    }

    /// Reads a capture time field from its stored name.
    pub fn parse_database_name(text: &String) -> (value: Option<CaptureTimeField>)
        ensures
            value == time_field_of(text@),
    {
        if is_text(text, "date-time-original") {
            Some(CaptureTimeField::DateTimeOriginal)
        } else if is_text(text, "date-time-digitized") {
            Some(CaptureTimeField::DateTimeDigitized)
        } else {
            None
        }
    }
}

/// Every stored name of a capture time field reads back as the value it was written for.
pub proof fn law_time_field_name_reads_back(value: CaptureTimeField)
    ensures
        time_field_of(time_field_name(value)) == Some(value),
{
    reveal_strlit("date-time-original");
    reveal_strlit("date-time-digitized");
    assert("date-time-original"@.len() != "date-time-digitized"@.len());
}

/// When an Original File was captured, as far as its metadata tells.
#[derive(Clone, Debug, PartialEq, Eq)]
pub struct CaptureFact {
    pub state: CaptureMetadataState,
    pub order_key: Option<String>,
    pub field: Option<CaptureTimeField>,
    pub offset_minutes: Option<i32>,
    pub source_revision: Option<String>,
}

/// Whether an index of a capture order key holds a separator, and which.
pub open spec fn key_separator(index: int) -> Option<char> {
    if index == 4 || index == 7 {
        Some('-')
    } else if index == 10 {
        Some('T')
    } else if index == 13 || index == 16 {
        Some(':')
    } else if index == 19 {
        Some('.')
    } else {
        None
    }
}

/// A capture order key: `YYYY-MM-DDTHH:MM:SS.nnnnnnnnn`, digits and separators.
pub open spec fn capture_order_key(text: Seq<char>) -> bool {
    text.len() == 29 && forall|i: int|
        0 <= i < 29 ==> match key_separator(i) {
            Some(separator) => #[trigger] text[i] == separator,
            None => is_digit(text[i]),
        }
}

/// Whether a text is a capture order key.
pub fn valid_capture_order_key(value: &String) -> (valid: bool)
    ensures
        valid == capture_order_key(value@),
{
    if value.as_str().unicode_len() != 29 {
        return false;
    }
    let mut i: usize = 0;
    while i < 29
        invariant
            i <= 29,
            value@.len() == 29,
            forall|j: int|
                0 <= j < i ==> match key_separator(j) {
                    Some(separator) => #[trigger] value@[j] == separator,
                    None => is_digit(value@[j]),
                },
        decreases 29 - i,
    {
        let c: char = value.as_str().get_char(i);
        let fits: bool = if i == 4 || i == 7 {
            c == '-'
        } else if i == 10 {
            c == 'T'
        } else if i == 13 || i == 16 {
            c == ':'
        } else if i == 19 {
            c == '.'
        } else {
            '0' <= c && c <= '9'
        };
        if !fits {
            assert(!(match key_separator(i as int) {
                Some(separator) => value@[i as int] == separator,
                None => is_digit(value@[i as int]),
            }));
            return false;
        }
        i = i + 1;
    }
    true
}

/// What a capture fact of each state may hold: nothing is derived but of known
/// metadata, and what was inspected names the revision that was.
pub open spec fn capture_fact_valid(fact: CaptureFact) -> bool {
    let revision = fact.source_revision is Some && fact.source_revision->0@.len() > 0;
    let nothing_derived = fact.order_key is None && fact.field is None && fact.offset_minutes
        is None;
    match fact.state {
        CaptureMetadataState::Pending => nothing_derived && fact.source_revision is None,
        CaptureMetadataState::Known => fact.order_key is Some && capture_order_key(
            fact.order_key->0@,
        ) && fact.field is Some && revision,
        CaptureMetadataState::Missing => nothing_derived && revision,
        CaptureMetadataState::Invalid => nothing_derived && revision,
        CaptureMetadataState::Failed => nothing_derived,
    }
}

/// Accepts a capture fact that holds together.
pub fn validate_capture_fact(fact: &CaptureFact) -> (result: Result<(), ()>)
    ensures
        result is Ok <==> capture_fact_valid(*fact),
{
    let revision: bool = match &fact.source_revision {
        Some(value) => value.as_str().unicode_len() > 0,
        None => false,
    };
    let known: bool = match &fact.order_key {
        Some(key) => valid_capture_order_key(key) && fact.field.is_some() && revision,
        None => false,
    };
    let nothing_derived: bool = fact.order_key.is_none() && fact.field.is_none()
        && fact.offset_minutes.is_none();
    let valid: bool = match fact.state {
        CaptureMetadataState::Pending => nothing_derived && fact.source_revision.is_none(),
        CaptureMetadataState::Known => known,
        CaptureMetadataState::Missing => nothing_derived && revision,
        CaptureMetadataState::Invalid => nothing_derived && revision,
        CaptureMetadataState::Failed => nothing_derived,
    };
    if valid {
        Ok(())
    } else {
        Err(())
    }
}

/// Reads a capture fact from its stored columns. The state and the field must be
/// names, the offset must fit, and the whole must hold together.
pub fn parse_capture_fact(
    state: &String,
    order_key: Option<String>,
    field: &Option<String>,
    offset_minutes: Option<i64>,
    source_revision: Option<String>,
) -> (fact: Option<CaptureFact>)
    ensures
        ({
            let readable = capture_of(state@) is Some && (*field is Some ==> time_field_of(
                (*field)->0@,
            ) is Some) && (offset_minutes is Some ==> i32::MIN <= offset_minutes->0 <= i32::MAX);
            let read = CaptureFact {
                state: capture_of(state@)->0,
                order_key,
                field: match *field {
                    Some(name) => time_field_of(name@),
                    None => None,
                },
                offset_minutes: match offset_minutes {
                    Some(n) => Some(n as i32),
                    None => None,
                },
                source_revision,
            };
            fact == if readable && capture_fact_valid(read) {
                Some(read)
            } else {
                None
            }
        }),
{
    let state: CaptureMetadataState = match parse_capture_state(state) {
        Some(state) => state,
        None => {
            return None;
        },
    };
    let field: Option<CaptureTimeField> = match field {
        Some(name) => match CaptureTimeField::parse_database_name(name) {
            Some(read) => Some(read),
            None => {
                return None;
            },
        },
        None => None,
    };
    let offset: Option<i32> = match offset_minutes {
        Some(n) => {
            if n < i32::MIN as i64 || n > i32::MAX as i64 {
                return None;
            }
            Some(n as i32)
        },
        None => None,
    };
    let fact: CaptureFact = CaptureFact {
        state,
        order_key,
        field,
        offset_minutes: offset,
        source_revision,
    };
    match validate_capture_fact(&fact) {
        Ok(_) => Some(fact),
        Err(_) => None,
    }
}

/// Selections are stored by these names, each by its own, and read from no other.
pub proof fn law_selections_are_stored_by_name(text: Seq<char>)
    ensures
        selection_of(text) == Some(SelectionState::Undecided) <==> text == "undecided"@,
        selection_of(text) == Some(SelectionState::Selected) <==> text == "selected"@,
        selection_of(text) == Some(SelectionState::Rejected) <==> text == "rejected"@,
        selection_name(SelectionState::Undecided) == "undecided"@,
        selection_name(SelectionState::Selected) == "selected"@,
        selection_name(SelectionState::Rejected) == "rejected"@,
{
    reveal_strlit("undecided");
    reveal_strlit("selected");
    reveal_strlit("rejected");
    assert("undecided"@.len() != "selected"@.len());
    assert("undecided"@.len() != "rejected"@.len());
    assert("selected"@[0] != "rejected"@[0]);
}

/// Kinds of Original Files and categories of what is wrong with them are stored by these
/// names, each by its own, and read from no other.
pub proof fn law_kinds_are_stored_by_name(text: Seq<char>)
    ensures
        kind_of(text) == Some(OriginalKind::Raw) <==> text == "raw"@,
        kind_of(text) == Some(OriginalKind::Jpeg) <==> text == "jpeg"@,
        kind_name(OriginalKind::Raw) == "raw"@,
        kind_name(OriginalKind::Jpeg) == "jpeg"@,
        category_of(text) == Some(OriginalErrorCategory::Unreadable) <==> text == "unreadable"@,
        category_of(text) == Some(OriginalErrorCategory::Changed) <==> text == "changed"@,
        category_name(OriginalErrorCategory::Unreadable) == "unreadable"@,
        category_name(OriginalErrorCategory::Changed) == "changed"@,
{
    reveal_strlit("raw");
    reveal_strlit("jpeg");
    reveal_strlit("unreadable");
    reveal_strlit("changed");
    assert("raw"@.len() != "jpeg"@.len());
    assert("unreadable"@.len() != "changed"@.len());
}

/// The states of Previews and of capture facts are stored by these names, each by its
/// own, and read from no other.
pub proof fn law_states_are_stored_by_name(text: Seq<char>)
    ensures
        preview_of(text) == Some(PreviewState::InspectionPending) <==> text
            == "inspection-pending"@,
        preview_of(text) == Some(PreviewState::Ready) <==> text == "ready"@,
        preview_of(text) == Some(PreviewState::Failed) <==> text == "failed"@,
        preview_of(text) == Some(PreviewState::Unavailable) <==> text == "unavailable"@,
        preview_name(PreviewState::InspectionPending) == "inspection-pending"@,
        preview_name(PreviewState::Ready) == "ready"@,
        preview_name(PreviewState::Failed) == "failed"@,
        preview_name(PreviewState::Unavailable) == "unavailable"@,
        capture_of(text) == Some(CaptureMetadataState::Pending) <==> text == "pending"@,
        capture_of(text) == Some(CaptureMetadataState::Known) <==> text == "known"@,
        capture_of(text) == Some(CaptureMetadataState::Missing) <==> text == "missing"@,
        capture_of(text) == Some(CaptureMetadataState::Invalid) <==> text == "invalid"@,
        capture_of(text) == Some(CaptureMetadataState::Failed) <==> text == "failed"@,
        capture_name(CaptureMetadataState::Pending) == "pending"@,
        capture_name(CaptureMetadataState::Known) == "known"@,
        capture_name(CaptureMetadataState::Missing) == "missing"@,
        capture_name(CaptureMetadataState::Invalid) == "invalid"@,
        capture_name(CaptureMetadataState::Failed) == "failed"@,
        time_field_of(text) == Some(CaptureTimeField::DateTimeOriginal) <==> text
            == "date-time-original"@,
        time_field_of(text) == Some(CaptureTimeField::DateTimeDigitized) <==> text
            == "date-time-digitized"@,
        time_field_name(CaptureTimeField::DateTimeOriginal) == "date-time-original"@,
        time_field_name(CaptureTimeField::DateTimeDigitized) == "date-time-digitized"@,
{
    reveal_strlit("inspection-pending");
    reveal_strlit("ready");
    reveal_strlit("failed");
    reveal_strlit("unavailable");
    assert("inspection-pending"@.len() == 18);
    assert("ready"@.len() == 5);
    assert("failed"@.len() == 6);
    assert("unavailable"@.len() == 11);
    reveal_strlit("pending");
    reveal_strlit("known");
    reveal_strlit("missing");
    reveal_strlit("invalid");
    assert("pending"@[0] == 'p' && "known"@[0] == 'k' && "missing"@[0] == 'm');
    assert("invalid"@[0] == 'i' && "failed"@[0] == 'f');
    reveal_strlit("date-time-original");
    reveal_strlit("date-time-digitized");
    assert("date-time-original"@.len() != "date-time-digitized"@.len());
}

/// Capture facts are whole: a known capture time has a key of its form, a field and a
/// source, no other state has either, one that is pending has no source, and one that is
/// missing or invalid has one.
pub proof fn law_capture_facts_are_whole(fact: CaptureFact)
    ensures
        capture_fact_valid(fact) ==> {
            &&& fact.state == CaptureMetadataState::Known <==> fact.order_key is Some
            &&& fact.order_key is Some <==> fact.field is Some
            &&& fact.offset_minutes is Some ==> fact.state == CaptureMetadataState::Known
            &&& fact.state == CaptureMetadataState::Pending ==> fact.source_revision is None
            &&& fact.state == CaptureMetadataState::Known || fact.state
                == CaptureMetadataState::Missing || fact.state == CaptureMetadataState::Invalid
                ==> fact.source_revision is Some && fact.source_revision->0@.len() > 0
            &&& fact.order_key is Some ==> fact.order_key->0@.len() == 29
                && fact.order_key->0@[4] == '-' && fact.order_key->0@[7] == '-'
                && fact.order_key->0@[10] == 'T' && fact.order_key->0@[13] == ':'
                && fact.order_key->0@[16] == ':' && fact.order_key->0@[19] == '.'
                && '0' <= fact.order_key->0@[0] <= '9' && '0' <= fact.order_key->0@[28] <= '9'
        },
        fact.order_key is None && fact.field is None && fact.offset_minutes is None && (fact.state
            == CaptureMetadataState::Pending ==> fact.source_revision is None) && (fact.state
            == CaptureMetadataState::Missing || fact.state == CaptureMetadataState::Invalid
            ==> fact.source_revision is Some && fact.source_revision->0@.len() > 0) && fact.state
            != CaptureMetadataState::Known ==> capture_fact_valid(fact),
{
}

/// A capture order key is a date and a time to the nanosecond, each of its numbers
/// written in full.
pub proof fn law_capture_order_keys_are_written_in_full(text: Seq<char>)
    ensures
        capture_order_key(text) <==> {
            &&& text.len() == 29
            &&& text[4] == '-' && text[7] == '-'
            &&& text[10] == 'T'
            &&& text[13] == ':' && text[16] == ':'
            &&& text[19] == '.'
            &&& forall|i: int|
                0 <= i < 29 && i != 4 && i != 7 && i != 10 && i != 13 && i != 16 && i != 19 ==> '0'
                    <= #[trigger] text[i] <= '9'
        },
{
}

/// A stored dimension is read as it stands where it is none or a number of pixels, and
/// no other is read.
pub proof fn law_dimensions_are_read_as_stored(value: Option<i64>, dimension: Option<Option<u32>>)
    requires
        call_ensures(parse_dimension, (value,), dimension),
    ensures
        value is None <==> dimension == Some(None::<u32>),
        value matches Some(n) ==> (dimension is Some <==> 0 <= n <= 0xffff_ffff),
        dimension matches Some(Some(read)) ==> value == Some(read as i64),
{
}

/// A RAW file is shown by the JPEG inside it, and a JPEG file by itself. Earlier
/// databases called the two by other names.
pub proof fn law_previews_come_from_their_kind(
    kind: OriginalKind,
    source: PreviewSource,
    name: &'static str,
)
    requires
        call_ensures(OriginalKind::preview_source, (kind,), source),
        call_ensures(PreviewSource::legacy_database_name, (source,), name),
    ensures
        kind == OriginalKind::Raw <==> source == PreviewSource::RawEmbeddedJpeg,
        kind == OriginalKind::Jpeg <==> source == PreviewSource::JpegOriginal,
        kind == OriginalKind::Raw ==> name@ == "embedded-raw-jpeg"@,
        kind == OriginalKind::Jpeg ==> name@ == "matching-jpeg"@,
{
}

/// Capture facts are read as they are stored: each column gives one of the facts, and a
/// row with an unknown name, or an offset beyond a small number, is not read.
pub proof fn law_capture_facts_are_read_as_stored(
    state: String,
    order_key: Option<String>,
    field: Option<String>,
    offset_minutes: Option<i64>,
    source_revision: Option<String>,
    fact: Option<CaptureFact>,
)
    requires
        call_ensures(
            parse_capture_fact,
            (&state, order_key, &field, offset_minutes, source_revision),
            fact,
        ),
    ensures
        fact matches Some(read) ==> {
            &&& read.order_key == order_key
            &&& read.source_revision == source_revision
            &&& read.offset_minutes is Some <==> offset_minutes is Some
            &&& offset_minutes is Some ==> read.offset_minutes->0 == offset_minutes->0
            &&& read.field is Some <==> field is Some
            &&& read.field == Some(CaptureTimeField::DateTimeOriginal) ==> field->0@
                == "date-time-original"@
            &&& read.field == Some(CaptureTimeField::DateTimeDigitized) ==> field->0@
                == "date-time-digitized"@
            &&& read.state == CaptureMetadataState::Pending ==> state@ == "pending"@
            &&& read.state == CaptureMetadataState::Known ==> state@ == "known"@
            &&& read.state == CaptureMetadataState::Missing ==> state@ == "missing"@
            &&& read.state == CaptureMetadataState::Invalid ==> state@ == "invalid"@
            &&& read.state == CaptureMetadataState::Failed ==> state@ == "failed"@
        },
        state@ == "pending"@ && order_key is None && field is None && offset_minutes is None
            && source_revision is None ==> fact is Some,
        state@ == "failed"@ && order_key is None && field is None && offset_minutes is None
            ==> fact is Some,
        (state@ == "missing"@ || state@ == "invalid"@) && order_key is None && field is None
            && offset_minutes is None && source_revision is Some && source_revision->0@.len() > 0
            ==> fact is Some,
        fact is None ==> state@ != "failed"@ || order_key is Some || field is Some
            || offset_minutes is Some,
{
    law_states_are_stored_by_name(state@);
    if field is Some {
        law_states_are_stored_by_name(field->0@);
    }
}

} // verus!
