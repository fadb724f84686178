//! Parsing and traversal of transcript files.
//!
//! A transcript file is append-only JSON Lines, but the conversation it encodes is a
//! tree: every record carries a `uuid` and a `parentUuid`. Rewinds, resumed branches
//! and compaction all leave abandoned branches behind in the same file, so replaying
//! the file linearly would render messages that are no longer part of the
//! conversation. The only faithful reading is to start from the newest record and
//! walk back along `parentUuid`.
//!
//! This module performs no file I/O; it only consumes lines and records.
use crate::double::Double;
use crate::json::{
    bool_field, field, flag_field, json_of_text, json_ref_option, string_field, string_field_or_empty, sub_field,
    text_field, text_or_empty, Json, JsonView,
};
use crate::text::{
    chars_of, copy_option, decimal_value, find, is_digit, parse_decimal, same_text, skip_white_space, stands_at, text_option, trim,
    trim_start, trimmed,
};
use crate::usage::{capped_sum, count, count_field, record_usage, Usage};
use std::collections::VecDeque;
use vstd::hash_map::StringHashMap;
use vstd::prelude::*;

verus! {

/// Flags the `auto_mode` attachment records on a session.
#[derive(Clone, Copy, Debug, PartialEq, Eq, Structural)]
pub struct AutoModeFlags {
    pub bash_first: bool,
    pub steer_only: bool,
    pub bypass: bool,
}

impl Default for AutoModeFlags {
    fn default() -> (flags: Self)
        ensures
            flags == (AutoModeFlags { bash_first: false, steer_only: false, bypass: false }),
    {
        AutoModeFlags { bash_first: false, steer_only: false, bypass: false }
    }
}

#[derive(Debug)]
pub struct TranscriptRecord {
    pub uuid: Option<String>,
    pub parent_uuid: Option<String>,
    pub logical_parent_uuid: Option<String>,
    pub is_sidechain: bool,
    pub record_type: String,
    pub subtype: Option<String>,
    pub is_compact_summary: bool,
    pub compact_metadata: Option<CompactMetadata>,
    pub raw: Json,
}

#[derive(Debug)]
pub struct CompactMetadata {
    pub trigger: String,
    pub pre_tokens: Option<u64>,
    pub post_tokens: Option<u64>,
}

/// What a [`CompactMetadata`] says.
pub struct CompactMetadataView {
    pub trigger: Seq<char>,
    pub pre_tokens: Option<u64>,
    pub post_tokens: Option<u64>,
}

impl View for CompactMetadata {
    type V = CompactMetadataView;

    open spec fn view(&self) -> CompactMetadataView {
        CompactMetadataView {
            trigger: self.trigger@,
            pre_tokens: self.pre_tokens,
            post_tokens: self.post_tokens,
        }
    }
}

/// What a [`TranscriptRecord`] says.
pub struct TranscriptRecordView {
    pub uuid: Option<Seq<char>>,
    pub parent_uuid: Option<Seq<char>>,
    pub logical_parent_uuid: Option<Seq<char>>,
    pub is_sidechain: bool,
    pub record_type: Seq<char>,
    pub subtype: Option<Seq<char>>,
    pub is_compact_summary: bool,
    pub compact_metadata: Option<CompactMetadataView>,
    pub raw: JsonView,
}

impl View for TranscriptRecord {
    type V = TranscriptRecordView;

    open spec fn view(&self) -> TranscriptRecordView {
        TranscriptRecordView {
            uuid: text_option(self.uuid),
            parent_uuid: text_option(self.parent_uuid),
            logical_parent_uuid: text_option(self.logical_parent_uuid),
            is_sidechain: self.is_sidechain,
            record_type: self.record_type@,
            subtype: text_option(self.subtype),
            is_compact_summary: self.is_compact_summary,
            compact_metadata: match self.compact_metadata {
                Some(metadata) => Some(metadata@),
                None => None,
            },
            raw: self.raw@,
        }
    }
}

impl Clone for CompactMetadata {
    fn clone(&self) -> (copy: Self)
        ensures
            copy@ == self@,
    {
        CompactMetadata {
            trigger: self.trigger.clone(),
            pre_tokens: self.pre_tokens,
            post_tokens: self.post_tokens,
        }
    }
}

impl Clone for TranscriptRecord {
    fn clone(&self) -> (copy: Self)
        ensures
            copy@ == self@,
    {
        TranscriptRecord {
            uuid: copy_option(&self.uuid),
            parent_uuid: copy_option(&self.parent_uuid),
            logical_parent_uuid: copy_option(&self.logical_parent_uuid),
            is_sidechain: self.is_sidechain,
            record_type: self.record_type.clone(),
            subtype: copy_option(&self.subtype),
            is_compact_summary: self.is_compact_summary,
            compact_metadata: match &self.compact_metadata {
                Some(metadata) => Some(metadata.clone()),
                None => None,
            },
            raw: self.raw.duplicate(),
        }
    }
}

/// Why a line is no record.
#[derive(Clone, Copy, Debug, PartialEq, Eq, Structural)]
pub enum RecordError {
    /// The line is not a JSON value.
    Json,
    /// A field that is known is missing or of another kind than it should be.
    Fields,
}

/// What a field of a kind can read as: nothing, a value, or something of another kind.
pub enum Slot<T> {
    Absent,
    Value(T),
    Mistyped,
}

/// The field of a value that holds its fields by name, or one behind the other.
pub open spec fn slot_value(value: JsonView, key: Seq<char>, position: int) -> Option<JsonView> {
    match value {
        JsonView::Object(_) => value.get(key),
        JsonView::List(items) if 0 <= position < items.len() => Some(items[position]),
        _ => None,
    }
}

/// A value can hold `fields` fields: by name, or as a list of no more than that.
pub open spec fn holds_fields(value: JsonView, fields: nat) -> bool {
    match value {
        JsonView::Object(_) => true,
        JsonView::List(items) => items.len() <= fields,
        _ => false,
    }
}

pub open spec fn text_slot(value: Option<JsonView>) -> Slot<Seq<char>> {
    match value {
        None => Slot::Absent,
        Some(JsonView::Null) => Slot::Absent,
        Some(JsonView::Text(text)) => Slot::Value(text),
        _ => Slot::Mistyped,
    }
}

pub open spec fn flag_slot(value: Option<JsonView>) -> Slot<bool> {
    match value {
        None => Slot::Absent,
        Some(JsonView::Null) => Slot::Absent,
        Some(JsonView::Bool(flag)) => Slot::Value(flag),
        _ => Slot::Mistyped,
    }
}

pub open spec fn count_slot(value: Option<JsonView>) -> Slot<u64> {
    match value {
        None => Slot::Absent,
        Some(JsonView::Null) => Slot::Absent,
        Some(JsonView::Number(number)) => match number.unsigned {
            Some(count) => Slot::Value(count),
            None => Slot::Mistyped,
        },
        _ => Slot::Mistyped,
    }
}

pub open spec fn metadata_slot(value: Option<JsonView>) -> Slot<CompactMetadataView> {
    match value {
        None => Slot::Absent,
        Some(JsonView::Null) => Slot::Absent,
        Some(value) => {
            let trigger = text_slot(slot_value(value, "trigger"@, 0));
            let pre = count_slot(slot_value(value, "preTokens"@, 1));
            let post = count_slot(slot_value(value, "postTokens"@, 2));
            if holds_fields(value, 3) && !(trigger is Mistyped) && !(pre is Mistyped) && !(
            post is Mistyped) {
                Slot::Value(
                    CompactMetadataView {
                        trigger: text_or_empty(trigger.option()),
                        pre_tokens: pre.option(),
                        post_tokens: post.option(),
                    },
                )
            } else {
                Slot::Mistyped
            }
        },
    }
}

impl<T> Slot<T> {
    pub open spec fn option(self) -> Option<T> {
        match self {
            Slot::Value(value) => Some(value),
            _ => None,
        }
    }
}

/// The record that a value is. It must name its type; the other fields may be missing or
/// null, and what is not known is only kept in `raw`.
pub open spec fn record_of(value: JsonView) -> Option<TranscriptRecordView> {
    let uuid = text_slot(slot_value(value, "uuid"@, 0));
    let parent = text_slot(slot_value(value, "parentUuid"@, 1));
    let logical_parent = text_slot(slot_value(value, "logicalParentUuid"@, 2));
    let sidechain = flag_slot(slot_value(value, "isSidechain"@, 3));
    let record_type = text_slot(slot_value(value, "type"@, 4));
    let subtype = text_slot(slot_value(value, "subtype"@, 5));
    let summary = flag_slot(slot_value(value, "isCompactSummary"@, 6));
    let metadata = metadata_slot(slot_value(value, "compactMetadata"@, 7));
    if holds_fields(value, 8) && record_type is Value && !(uuid is Mistyped) && !(
    parent is Mistyped) && !(logical_parent is Mistyped) && !(sidechain is Mistyped) && !(
    subtype is Mistyped) && !(summary is Mistyped) && !(metadata is Mistyped) {
        Some(
            TranscriptRecordView {
                uuid: uuid.option(),
                parent_uuid: parent.option(),
                logical_parent_uuid: logical_parent.option(),
                is_sidechain: sidechain.option() == Some(true),
                record_type: record_type->Value_0,
                subtype: subtype.option(),
                is_compact_summary: summary.option() == Some(true),
                compact_metadata: metadata.option(),
                raw: value,
            },
        )
    } else {
        None
    }
}

pub(crate) fn read_slot<'a>(value: &'a Json, key: &str, position: usize) -> (result: Option<&'a Json>)
    ensures
        json_ref_option(result) == slot_value(value@, key@, position as int),
{
    match value {
        Json::Object(_) => value.get(key),
        Json::List(items) => {
            assert(value@->List_0.len() == items@.len());
            if position < items.len() {
                assert(value@->List_0[position as int] == items@[position as int]@);
                Some(&items[position])
            } else {
                None
            }
        },
        _ => None,
    }
}

pub(crate) fn can_hold_fields(value: &Json, fields: usize) -> (result: bool)
    ensures
        result == holds_fields(value@, fields as nat),
{
    match value {
        Json::Object(_) => true,
        Json::List(items) => items.len() <= fields,
        _ => false,
    }
}

pub(crate) fn read_text(value: Option<&Json>) -> (result: Result<Option<String>, RecordError>)
    ensures
        match result {
            Ok(text) => text_option(text) == text_slot(json_ref_option(value)).option()
                && !(text_slot(json_ref_option(value)) is Mistyped),
            Err(error) => error == RecordError::Fields && text_slot(
                json_ref_option(value),
            ) is Mistyped,
        },
{
    match value {
        None => Ok(None),
        Some(Json::Null) => Ok(None),
        Some(Json::Text(text)) => Ok(Some(text.clone())),
        _ => Err(RecordError::Fields),
    }
}

fn read_flag(value: Option<&Json>) -> (result: Result<bool, RecordError>)
    ensures
        match result {
            Ok(flag) => flag == (flag_slot(json_ref_option(value)).option() == Some(true)) && !(
            flag_slot(json_ref_option(value)) is Mistyped),
            Err(error) => error == RecordError::Fields && flag_slot(
                json_ref_option(value),
            ) is Mistyped,
        },
{
    match value {
        None => Ok(false),
        Some(Json::Null) => Ok(false),
        Some(Json::Bool(flag)) => Ok(*flag),
        _ => Err(RecordError::Fields),
    }
}

fn read_count(value: Option<&Json>) -> (result: Result<Option<u64>, RecordError>)
    ensures
        match result {
            Ok(count) => count == count_slot(json_ref_option(value)).option() && !(count_slot(
                json_ref_option(value),
            ) is Mistyped),
            Err(error) => error == RecordError::Fields && count_slot(
                json_ref_option(value),
            ) is Mistyped,
        },
{
    match value {
        None => Ok(None),
        Some(Json::Null) => Ok(None),
        Some(Json::Number(number)) => match number.unsigned {
            Some(count) => Ok(Some(count)),
            None => Err(RecordError::Fields),
        },
        _ => Err(RecordError::Fields),
    }
}

fn read_metadata(value: Option<&Json>) -> (result: Result<Option<CompactMetadata>, RecordError>)
    ensures
        match result {
            Ok(metadata) => (match metadata {
                Some(metadata) => Some(metadata@),
                None => None,
            }) == metadata_slot(json_ref_option(value)).option() && !(metadata_slot(
                json_ref_option(value),
            ) is Mistyped),
            Err(error) => error == RecordError::Fields && metadata_slot(
                json_ref_option(value),
            ) is Mistyped,
        },
{
    let value = match value {
        None => {
            return Ok(None);
        },
        Some(Json::Null) => {
            return Ok(None);
        },
        Some(value) => value,
    };
    if !can_hold_fields(value, 3) {
        return Err(RecordError::Fields);
    }
    let trigger = match read_text(read_slot(value, "trigger", 0)) {
        Ok(Some(trigger)) => trigger,
        Ok(None) => String::new(),
        Err(error) => {
            return Err(error);
        },
    };
    let pre_tokens = match read_count(read_slot(value, "preTokens", 1)) {
        Ok(count) => count,
        Err(error) => {
            return Err(error);
        },
    };
    let post_tokens = match read_count(read_slot(value, "postTokens", 2)) {
        Ok(count) => count,
        Err(error) => {
            return Err(error);
        },
    };
    Ok(Some(CompactMetadata { trigger, pre_tokens, post_tokens }))
}

/// The record that a line's JSON value is.
pub fn record_from_json(raw: Json) -> (result: Result<TranscriptRecord, RecordError>)
    ensures
        match result {
            Ok(record) => record_of(raw@) == Some(record@),
            Err(error) => error == RecordError::Fields && record_of(raw@) is None,
        },
{
    if !can_hold_fields(&raw, 8) {
        return Err(RecordError::Fields);
    }
    let uuid = match read_text(read_slot(&raw, "uuid", 0)) {
        Ok(uuid) => uuid,
        Err(error) => {
            return Err(error);
        },
    };
    let parent_uuid = match read_text(read_slot(&raw, "parentUuid", 1)) {
        Ok(uuid) => uuid,
        Err(error) => {
            return Err(error);
        },
    };
    let logical_parent_uuid = match read_text(read_slot(&raw, "logicalParentUuid", 2)) {
        Ok(uuid) => uuid,
        Err(error) => {
            return Err(error);
        },
    };
    let is_sidechain = match read_flag(read_slot(&raw, "isSidechain", 3)) {
        Ok(flag) => flag,
        Err(error) => {
            return Err(error);
        },
    };
    let record_type = match read_text(read_slot(&raw, "type", 4)) {
        Ok(Some(record_type)) => record_type,
        _ => {
            return Err(RecordError::Fields);
        },
    };
    let subtype = match read_text(read_slot(&raw, "subtype", 5)) {
        Ok(subtype) => subtype,
        Err(error) => {
            return Err(error);
        },
    };
    let is_compact_summary = match read_flag(read_slot(&raw, "isCompactSummary", 6)) {
        Ok(flag) => flag,
        Err(error) => {
            return Err(error);
        },
    };
    let compact_metadata = match read_metadata(read_slot(&raw, "compactMetadata", 7)) {
        Ok(metadata) => metadata,
        Err(error) => {
            return Err(error);
        },
    };
    Ok(
        TranscriptRecord {
            uuid,
            parent_uuid,
            logical_parent_uuid,
            is_sidechain,
            record_type,
            subtype,
            is_compact_summary,
            compact_metadata,
            raw,
        },
    )
}

/// Parses one line of a transcript file. Blank and whitespace-only lines yield
/// `Ok(None)`. Malformed JSON yields `Err` so that the caller can skip the line and
/// keep reading: a transcript being appended to can be read mid-write.
pub fn parse_record(line: &str) -> (result: Result<Option<TranscriptRecord>, RecordError>)
    ensures
        match result {
            Ok(None) => trimmed(line@).len() == 0,
            Ok(Some(record)) => trimmed(line@).len() > 0 && json_of_text(trimmed(line@)) is Some
                && record_of(json_of_text(trimmed(line@))->0) == Some(record@),
            Err(RecordError::Json) => trimmed(line@).len() > 0 && json_of_text(
                trimmed(line@),
            ) is None,
            Err(RecordError::Fields) => trimmed(line@).len() > 0 && json_of_text(
                trimmed(line@),
            ) is Some && record_of(json_of_text(trimmed(line@))->0) is None,
        },
{
    let text = trim(line);
    if text.is_empty() {
        return Ok(None);
    }
    match Json::parse(text) {
        Some(raw) => match record_from_json(raw) {
            Ok(record) => Ok(Some(record)),
            Err(error) => Err(error),
        },
        None => Err(RecordError::Json),
    }
}

/// The records, the queue and the newest facts of a transcript file, read so far.
pub struct Transcript {
    records: Vec<TranscriptRecord>,
    /// The messages waiting behind the turn that is running, oldest first; see
    /// [`Self::queued_messages`].
    queued: VecDeque<String>,
    index_by_uuid: StringHashMap<usize>,
    leaf_uuid: Option<String>,
    overwritten_uuids: Vec<String>,
    /// Whether this transcript is itself one sub-agent's conversation rather than a
    /// session's own thread; see [`Self::for_sidechain`].
    reads_sidechain: bool,
    last_permission_mode_index: Option<usize>,
    last_ai_title_index: Option<usize>,
    last_bridge_session_index: Option<usize>,
    last_tokens_left_index: Option<usize>,
    last_auto_mode_index: Option<usize>,
}

/// What a [`Transcript`] has read so far.
#[verifier::ext_equal]
pub struct TranscriptView {
    pub records: Seq<TranscriptRecordView>,
    pub queued: Seq<Seq<char>>,
    pub leaf: Option<Seq<char>>,
    pub overwritten: Seq<Seq<char>>,
    pub reads_sidechain: bool,
    /// Where the newest record of each of these kinds stands.
    pub permission_mode_at: Option<usize>,
    pub ai_title_at: Option<usize>,
    pub bridge_session_at: Option<usize>,
    pub tokens_left_at: Option<usize>,
    pub auto_mode_at: Option<usize>,
}

pub open spec fn record_views(records: Seq<TranscriptRecord>) -> Seq<TranscriptRecordView> {
    records.map_values(|record: TranscriptRecord| record@)
}

pub open spec fn texts(texts: Seq<String>) -> Seq<Seq<char>> {
    texts.map_values(|text: String| text@)
}

/// The position of the first record at or behind `from` with this uuid; the number of
/// records where there is none.
pub open spec fn place_of(records: Seq<TranscriptRecordView>, uuid: Seq<char>, from: int) -> int
    decreases records.len() - from,
{
    if from >= records.len() {
        records.len() as int
    } else if records[from].uuid == Some(uuid) {
        from
    } else {
        place_of(records, uuid, from + 1)
    }
}

/// No two records have one uuid.
pub open spec fn distinct_uuids(records: Seq<TranscriptRecordView>) -> bool {
    forall|a: int, b: int|
        #![trigger records[a], records[b]]
        0 <= a < b < records.len() && records[a].uuid is Some ==> records[a].uuid
            != records[b].uuid
}

pub(crate) proof fn lemma_place_of(records: Seq<TranscriptRecordView>, uuid: Seq<char>, from: int)
    requires
        0 <= from <= records.len(),
    ensures
        from <= place_of(records, uuid, from) <= records.len(),
        place_of(records, uuid, from) < records.len() ==> records[place_of(
            records,
            uuid,
            from,
        )].uuid == Some(uuid),
        forall|k: int|
            from <= k < place_of(records, uuid, from) ==> (#[trigger] records[k]).uuid != Some(uuid),
    decreases records.len() - from,
{
    if from < records.len() && records[from].uuid != Some(uuid) {
        lemma_place_of(records, uuid, from + 1);
    }
}

/// The queue after a record: a line of the queue log, or anything else, which leaves it.
pub open spec fn queue_after(queued: Seq<Seq<char>>, record: TranscriptRecordView) -> Seq<Seq<char>> {
    let content = match text_field(record.raw.get("content"@)) {
        Some(content) if trimmed(content).len() > 0 => Some(trimmed(content)),
        _ => None,
    };
    let operation = text_field(record.raw.get("operation"@));
    if record.record_type != "queue-operation"@ {
        queued
    } else if operation == Some("enqueue"@) {
        match content {
            Some(content) => queued.push(content),
            None => queued,
        }
    } else if operation == Some("remove"@) {
        match content {
            Some(content) => without_first(queued, content),
            None => queued,
        }
    } else if operation == Some("dequeue"@) {
        if queued.len() > 0 {
            queued.drop_first()
        } else {
            queued
        }
    } else if operation == Some("popAll"@) {
        Seq::empty()
    } else {
        queued
    }
}

/// The first position of a text at or behind `from`; the length where there is none.
pub open spec fn text_position(texts: Seq<Seq<char>>, text: Seq<char>, from: int) -> int
    decreases texts.len() - from,
{
    if from >= texts.len() {
        texts.len() as int
    } else if texts[from] == text {
        from
    } else {
        text_position(texts, text, from + 1)
    }
}

/// The texts without the first one that is `text`.
pub open spec fn without_first(texts: Seq<Seq<char>>, text: Seq<char>) -> Seq<Seq<char>> {
    let position = text_position(texts, text, 0);
    if position < texts.len() {
        texts.remove(position)
    } else {
        texts
    }
}

proof fn lemma_text_position(texts: Seq<Seq<char>>, text: Seq<char>, from: int)
    requires
        0 <= from <= texts.len(),
        forall|k: int| from <= k < texts.len() - 1 ==> #[trigger] texts[k] != text,
        texts.len() > 0 && texts.last() == text,
        from < texts.len(),
    ensures
        text_position(texts, text, from) == texts.len() - 1,
    decreases texts.len() - from,
{
    if from < texts.len() - 1 {
        assert(texts[from] != text);
        lemma_text_position(texts, text, from + 1);
    }
}

/// Whether a record is a line of the queue log with this operation on this message.
pub open spec fn is_queue_line(record: TranscriptRecordView, operation: Seq<char>, message: Seq<char>) -> bool {
    &&& record.record_type == "queue-operation"@
    &&& text_field(record.raw.get("operation"@)) == Some(operation)
    &&& match text_field(record.raw.get("content"@)) {
        Some(content) => trimmed(content) == message,
        None => false,
    }
}

/// To remove a message by name undoes queueing it, where it was not waiting already.
pub proof fn lemma_removing_undoes_queueing(
    queued: Seq<Seq<char>>,
    message: Seq<char>,
    enqueue: TranscriptRecordView,
    remove: TranscriptRecordView,
)
    requires
        message.len() > 0,
        !queued.contains(message),
        is_queue_line(enqueue, "enqueue"@, message),
        is_queue_line(remove, "remove"@, message),
    ensures
        queue_after(queue_after(queued, enqueue), remove) == queued,
{
    reveal_strlit("enqueue");
    reveal_strlit("remove");
    assert("enqueue"@.len() != "remove"@.len());
    let waiting = queued.push(message);
    assert forall|k: int| 0 <= k < waiting.len() - 1 implies #[trigger] waiting[k] != message by {
        assert(queued[k] == waiting[k]);
        assert(queued.contains(queued[k]));
    }
    lemma_text_position(waiting, message, 0);
    assert(waiting.remove(waiting.len() - 1) =~= queued);
}

/// The kind of attachment that a record is.
pub open spec fn attachment_kind(record: TranscriptRecordView) -> Option<Seq<char>> {
    if record.record_type == "attachment"@ {
        text_field(field(record.raw.get("attachment"@), "type"@))
    } else {
        None
    }
}

pub open spec fn noted_at(
    before: Option<usize>,
    applies: bool,
    index: int,
) -> Option<usize> {
    if applies {
        Some(index as usize)
    } else {
        before
    }
}

impl TranscriptView {
    pub open spec fn unread(reads_sidechain: bool) -> TranscriptView {
        TranscriptView {
            records: Seq::empty(),
            queued: Seq::empty(),
            leaf: None,
            overwritten: Seq::empty(),
            reads_sidechain,
            permission_mode_at: None,
            ai_title_at: None,
            bridge_session_at: None,
            tokens_left_at: None,
            auto_mode_at: None,
        }
    }

    /// Whether a record belongs to the conversation that is read.
    pub open spec fn shows(self, record: TranscriptRecordView) -> bool {
        self.reads_sidechain || !record.is_sidechain
    }

    /// Where a record goes: in the place of the one with its uuid, or behind all.
    pub open spec fn place(self, record: TranscriptRecordView) -> int {
        match record.uuid {
            Some(uuid) => place_of(self.records, uuid, 0),
            None => self.records.len() as int,
        }
    }

    /// The transcript after one more record.
    pub open spec fn with_record(self, record: TranscriptRecordView) -> TranscriptView {
        let place = self.place(record);
        let unnamed = record.uuid is None;
        TranscriptView {
            records: if place < self.records.len() {
                self.records.update(place, record)
            } else {
                self.records.push(record)
            },
            queued: queue_after(self.queued, record),
            leaf: if record.uuid is Some && self.shows(record) {
                record.uuid
            } else {
                self.leaf
            },
            overwritten: if place < self.records.len() {
                self.overwritten.push(record.uuid->0)
            } else {
                self.overwritten
            },
            reads_sidechain: self.reads_sidechain,
            permission_mode_at: noted_at(
                self.permission_mode_at,
                unnamed && record.record_type == "permission-mode"@,
                place,
            ),
            ai_title_at: noted_at(
                self.ai_title_at,
                unnamed && record.record_type == "ai-title"@,
                place,
            ),
            bridge_session_at: noted_at(
                self.bridge_session_at,
                unnamed && record.record_type == "bridge-session"@,
                place,
            ),
            tokens_left_at: noted_at(
                self.tokens_left_at,
                attachment_kind(record) == Some("total_tokens_reminder"@),
                place,
            ),
            auto_mode_at: noted_at(
                self.auto_mode_at,
                attachment_kind(record) == Some("auto_mode"@),
                place,
            ),
        }
    }

    /// The transcript after more records, in file order.
    pub open spec fn with_records(self, records: Seq<TranscriptRecordView>) -> TranscriptView
        decreases records.len(),
    {
        if records.len() == 0 {
            self
        } else {
            self.with_records(records.drop_last()).with_record(records.last())
        }
    }

    /// The uuid that a record goes back to. A compact boundary has a parent from before
    /// the compaction, which is followed where `across` says so.
    pub open spec fn parent(record: TranscriptRecordView, across: bool) -> Option<Seq<char>> {
        if across && record.subtype == Some("compact_boundary"@) && record.logical_parent_uuid is Some {
            record.logical_parent_uuid
        } else {
            record.parent_uuid
        }
    }

    /// The records met on the way back from `cursor`, newest first, behind those already
    /// met: until there is no parent, the parent is not there, or it was met before. (There
    /// are never more steps than records; see [`lemma_trail_is_never_cut_short`].)
    pub open spec fn trail(self, cursor: Option<Seq<char>>, met: Seq<int>, across: bool) -> Seq<int>
        decreases self.records.len() - met.len(),
    {
        match cursor {
            Some(uuid) => {
                let place = place_of(self.records, uuid, 0);
                if place < self.records.len() && !met.contains(place) && met.len()
                    < self.records.len() {
                    self.trail(
                        TranscriptView::parent(self.records[place], across),
                        met.push(place),
                        across,
                    )
                } else {
                    met
                }
            },
            None => met,
        }
    }

    /// The records of a trail that belong to the conversation, oldest first.
    pub open spec fn shown(self, trail: Seq<int>) -> Seq<TranscriptRecordView>
        decreases trail.len(),
    {
        if trail.len() == 0 {
            Seq::empty()
        } else {
            let record = self.records[trail.last()];
            let newer = self.shown(trail.drop_last());
            if self.shows(record) {
                seq![record] + newer
            } else {
                newer
            }
        }
    }

    /// The conversation that ends at the leaf.
    pub open spec fn path(self, across: bool) -> Seq<TranscriptRecordView> {
        self.shown(self.trail(self.leaf, Seq::empty(), across))
    }
}

proof fn lemma_pigeonhole(met: Seq<int>, n: int, place: int)
    requires
        n >= 0,
        met.no_duplicates(),
        forall|k: int| 0 <= k < met.len() ==> 0 <= #[trigger] met[k] < n,
        0 <= place < n,
        !met.contains(place),
    ensures
        met.len() < n,
{
    let all = vstd::set_lib::set_int_range(0, n);
    vstd::set_lib::lemma_int_range(0, n);
    met.unique_seq_to_set();
    let more = met.push(place);
    assert(more.no_duplicates());
    more.unique_seq_to_set();
    assert forall|x: int| more.to_set().contains(x) implies all.contains(x) by {
        let k = choose|k: int| 0 <= k < more.len() && more[k] == x;
        if k < met.len() {
            assert(met[k] == x);
        }
    }
    assert(more.to_set().subset_of(all));
    vstd::set_lib::lemma_len_subset(more.to_set(), all);
}

impl Transcript {
    pub closed spec fn view(&self) -> TranscriptView {
        TranscriptView {
            records: record_views(self.records@),
            queued: texts(self.queued@),
            leaf: text_option(self.leaf_uuid),
            overwritten: texts(self.overwritten_uuids@),
            reads_sidechain: self.reads_sidechain,
            permission_mode_at: self.last_permission_mode_index,
            ai_title_at: self.last_ai_title_index,
            bridge_session_at: self.last_bridge_session_index,
            tokens_left_at: self.last_tokens_left_index,
            auto_mode_at: self.last_auto_mode_index,
        }
    }

    /// The index leads to the record of each uuid, and nowhere else.
    pub closed spec fn well_formed(&self) -> bool {
        &&& distinct_uuids(self@.records)
        &&& forall|uuid: Seq<char>| #[trigger]
            self.index_by_uuid@.contains_key(uuid) ==> self.index_by_uuid@[uuid]
                < self.records@.len() && self@.records[self.index_by_uuid@[uuid] as int].uuid
                == Some(uuid)
        &&& forall|k: int|
            0 <= k < self@.records.len() && (#[trigger] self@.records[k]).uuid is Some
                ==> self.index_by_uuid@.contains_key(self@.records[k].uuid->0)
    }

    proof fn lemma_index(&self, uuid: Seq<char>)
        requires
            self.well_formed(),
        ensures
            self.index_by_uuid@.contains_key(uuid) == (place_of(self@.records, uuid, 0)
                < self@.records.len()),
            self.index_by_uuid@.contains_key(uuid) ==> self.index_by_uuid@[uuid] == place_of(
                self@.records,
                uuid,
                0,
            ),
            0 <= place_of(self@.records, uuid, 0) <= self@.records.len(),
            self@.records.len() == self.records@.len(),
    {
        lemma_place_of(self@.records, uuid, 0);
        let place = place_of(self@.records, uuid, 0);
        if self.index_by_uuid@.contains_key(uuid) {
            let at = self.index_by_uuid@[uuid] as int;
            assert(self@.records[at].uuid == Some(uuid));
            if place < self@.records.len() && place != at {
                assert(self@.records[place].uuid == Some(uuid));
            }
        }
    }

    /// A session's own thread, in which a sidechain record belongs to a sub-agent and is
    /// therefore not part of the conversation being read.
    pub fn new() -> (transcript: Self)
        ensures
            transcript.well_formed(),
            transcript@ == TranscriptView::unread(false),
    {
        Transcript::with_reading(false)
    }

    /// One sub-agent's own conversation.
    ///
    /// Every line of such a file carries `isSidechain`, because that is how a record is
    /// marked as belonging to an agent rather than to the thread the user is
    /// talking in. Read as a session's own thread the file therefore has no conversation
    /// in it at all: the leaf never moves and every record is skipped on the way back.
    /// This reading takes the file for what it is, and is only ever used on a file that
    /// is one agent's.
    pub fn for_sidechain() -> (transcript: Self)
        ensures
            transcript.well_formed(),
            transcript@ == TranscriptView::unread(true),
    {
        Transcript::with_reading(true)
    }

    fn with_reading(reads_sidechain: bool) -> (transcript: Self)
        ensures
            transcript.well_formed(),
            transcript@ == TranscriptView::unread(reads_sidechain),
    {
        let transcript = Transcript {
            records: Vec::new(),
            queued: VecDeque::new(),
            index_by_uuid: StringHashMap::new(),
            leaf_uuid: None,
            overwritten_uuids: Vec::new(),
            reads_sidechain,
            last_permission_mode_index: None,
            last_ai_title_index: None,
            last_bridge_session_index: None,
            last_tokens_left_index: None,
            last_auto_mode_index: None,
        };
        assert(transcript@ =~= TranscriptView::unread(reads_sidechain));
        transcript
    }

    /// Absorbs records in file order. Safe to call repeatedly as the file grows.
    pub fn absorb(&mut self, records: Vec<TranscriptRecord>)
        requires
            old(self).well_formed(),
        ensures
            final(self).well_formed(),
            final(self)@ == old(self)@.with_records(record_views(records@)),
    {
        let ghost all = records@;
        let ghost start = self@;
        for record in it: records
            invariant
                it.seq() == all,
                self.well_formed(),
                self@ == start.with_records(record_views(all.take(it.index()))),
        {
            proof {
                let now = record_views(all.take(it.index() + 1));
                assert(now.drop_last() =~= record_views(all.take(it.index())));
                assert(now.last() == record@);
            }
            self.absorb_one(record);
        }
        assert(all.take(all.len() as int) =~= all);
    }

    fn absorb_one(&mut self, record: TranscriptRecord)
        requires
            old(self).well_formed(),
        ensures
            final(self).well_formed(),
            final(self)@ == old(self)@.with_record(record@),
    {
        // Applied as the record arrives rather than replayed on demand: these have no
        // uuid, so they are only ever appended and never rewritten, which makes the
        // queue a running total rather than something to recompute.
        self.apply_queue_operation(&record);
        let ghost queued = *self;
        let ghost view = record@;
        let ghost before = old(self)@;

        let uuid = match &record.uuid {
            None => {
                // Records such as `mode`, `last-prompt` and `ai-title` have no uuid, so
                // nothing can reference them and they can never be a leaf.
                let index: usize = self.records.len();
                let record_type = record.record_type.as_str();
                if same_text(record_type, "permission-mode") {
                    self.last_permission_mode_index = Some(index);
                }
                if same_text(record_type, "ai-title") {
                    self.last_ai_title_index = Some(index);
                }
                if same_text(record_type, "bridge-session") {
                    self.last_bridge_session_index = Some(index);
                }
                self.note_attachment_facts(index, &record);
                self.records.push(record);
                proof {
                    assert(self@.records =~= before.records.push(view));
                    assert(self@ =~= before.with_record(view));
                    assert forall|k: int|
                        0 <= k < self@.records.len() && (#[trigger] self@.records[k]).uuid is Some
                        implies self.index_by_uuid@.contains_key(self@.records[k].uuid->0) by {
                        assert(queued@.records[k] == self@.records[k]);
                    }
                    assert forall|uuid: Seq<char>| #[trigger]
                        self.index_by_uuid@.contains_key(uuid) implies self.index_by_uuid@[uuid]
                        < self.records@.len() && self@.records[self.index_by_uuid@[uuid] as int].uuid
                        == Some(uuid) by {
                        assert(queued.index_by_uuid@.contains_key(uuid));
                        let at = self.index_by_uuid@[uuid] as int;
                        assert(queued@.records[at] == self@.records[at]);
                    }
                }
                return;
            },
            Some(uuid) => uuid.clone(),
        };
        proof {
            self.lemma_index(uuid@);
        }
        // Sidechain records belong to sub-agent conversations, which are not part of
        // the main thread the user is watching, so they must not move the leaf —
        // unless the conversation being read is one agent's own, in which case they
        // are the only records there are.
        if self.reads_sidechain || !record.is_sidechain {
            self.leaf_uuid = Some(uuid.clone());
        }
        let existing: Option<usize> = match self.index_by_uuid.get(uuid.as_str()) {
            Some(index) => Some(*index),
            None => None,
        };
        match existing {
            Some(index) => {
                let ghost overwritten = self.overwritten_uuids@;
                self.overwritten_uuids.push(uuid);
                assert(texts(self.overwritten_uuids@) =~= texts(overwritten).push(uuid@));
                self.note_attachment_facts(index, &record);
                self.records.set(index, record);
                proof {
                    assert(self@.records =~= before.records.update(index as int, view));
                    assert(self@ =~= before.with_record(view));
                    assert forall|k: int|
                        0 <= k < self@.records.len() && (#[trigger] self@.records[k]).uuid is Some
                        implies self.index_by_uuid@.contains_key(self@.records[k].uuid->0) by {
                        if k != index {
                            assert(queued@.records[k] == self@.records[k]);
                        }
                    }
                    assert forall|other: Seq<char>| #[trigger]
                        self.index_by_uuid@.contains_key(other) implies self.index_by_uuid@[other]
                        < self.records@.len() && self@.records[self.index_by_uuid@[other] as int].uuid
                        == Some(other) by {
                        assert(queued.index_by_uuid@.contains_key(other));
                        let at = self.index_by_uuid@[other] as int;
                        assert(queued@.records[at].uuid == Some(other));
                        if at != index {
                            assert(queued@.records[at] == self@.records[at]);
                        }
                    }
                    assert(distinct_uuids(self@.records)) by {
                        assert forall|a: int, b: int|
                            #![trigger self@.records[a], self@.records[b]]
                            0 <= a < b < self@.records.len() && self@.records[a].uuid is Some
                            implies self@.records[a].uuid != self@.records[b].uuid by {
                            assert(queued@.records[a].uuid == self@.records[a].uuid);
                            assert(queued@.records[b].uuid == self@.records[b].uuid);
                        }
                    }
                }
            },
            None => {
                let index: usize = self.records.len();
                self.note_attachment_facts(index, &record);
                self.index_by_uuid.insert(uuid, index);
                self.records.push(record);
                proof {
                    lemma_place_of(before.records, uuid@, 0);
                    assert(self@.records =~= before.records.push(view));
                    assert(self@ =~= before.with_record(view));
                    assert forall|k: int|
                        0 <= k < self@.records.len() && (#[trigger] self@.records[k]).uuid is Some
                        implies self.index_by_uuid@.contains_key(self@.records[k].uuid->0) by {
                        if k != index {
                            assert(queued@.records[k] == self@.records[k]);
                        }
                    }
                    assert forall|other: Seq<char>| #[trigger]
                        self.index_by_uuid@.contains_key(other) implies self.index_by_uuid@[other]
                        < self.records@.len() && self@.records[self.index_by_uuid@[other] as int].uuid
                        == Some(other) by {
                        if other != uuid@ {
                            assert(queued.index_by_uuid@.contains_key(other));
                            let at = self.index_by_uuid@[other] as int;
                            assert(queued@.records[at] == self@.records[at]);
                        }
                    }
                    assert(distinct_uuids(self@.records)) by {
                        assert forall|a: int, b: int|
                            #![trigger self@.records[a], self@.records[b]]
                            0 <= a < b < self@.records.len() && self@.records[a].uuid is Some
                            implies self@.records[a].uuid != self@.records[b].uuid by {
                            assert(queued@.records[a] == self@.records[a]);
                            if b < index {
                                assert(queued@.records[b] == self@.records[b]);
                            }
                        }
                    }
                }
            },
        }
    }

    fn note_attachment_facts(&mut self, index: usize, record: &TranscriptRecord)
        ensures
            *final(self) == (Transcript {
                last_tokens_left_index: noted_at(
                    old(self).last_tokens_left_index,
                    attachment_kind(record@) == Some("total_tokens_reminder"@),
                    index as int,
                ),
                last_auto_mode_index: noted_at(
                    old(self).last_auto_mode_index,
                    attachment_kind(record@) == Some("auto_mode"@),
                    index as int,
                ),
                ..*old(self)
            }),
    {
        if !same_text(record.record_type.as_str(), "attachment") {
            return;
        }
        let kind = match string_field(sub_field(record.raw.get("attachment"), "type")) {
            Some(kind) => kind,
            None => {
                return;
            },
        };
        if same_text(kind.as_str(), "total_tokens_reminder") {
            self.last_tokens_left_index = Some(index);
        }
        if same_text(kind.as_str(), "auto_mode") {
            self.last_auto_mode_index = Some(index);
        }
    }

    fn apply_queue_operation(&mut self, record: &TranscriptRecord)
        requires
            old(self).well_formed(),
        ensures
            final(self).well_formed(),
            final(self).records == old(self).records,
            final(self)@ == (TranscriptView {
                queued: queue_after(old(self)@.queued, record@),
                ..old(self)@
            }),
    {
        let ghost before = self.queued@;
        if !same_text(record.record_type.as_str(), "queue-operation") {
            return;
        }
        let content = string_field_or_empty(record.raw.get("content"));
        let content = trim(content.as_str());
        let operation = match string_field(record.raw.get("operation")) {
            Some(operation) => operation,
            None => {
                return;
            },
        };
        let operation = operation.as_str();
        proof {
            lemma_trimmed_empty();
        }
        if same_text(operation, "enqueue") {
            if !content.is_empty() {
                self.queued.push_back(content.to_owned());
                assert(self@.queued =~= texts(before).push(content@));
            }
        } else if same_text(operation, "remove") {
            // The text says which one left, because a queue can hold more than one and
            // the one removed is not always the oldest.
            if !content.is_empty() {
                let mut i: usize = 0;
                while i < self.queued.len() && !same_text(self.queued[i].as_str(), content)
                    invariant
                        i <= self.queued@.len(),
                        *self == *old(self),
                        self.queued@ == before,
                        text_position(texts(before), content@, 0) == text_position(
                            texts(before),
                            content@,
                            i as int,
                        ),
                    decreases self.queued@.len() - i,
                {
                    assert(texts(before)[i as int] == before[i as int]@);
                    i = i + 1;
                }
                if i < self.queued.len() {
                    assert(texts(before)[i as int] == before[i as int]@);
                    self.queued.remove(i);
                    assert(self@.queued =~= texts(before).remove(i as int));
                }
            }
        } else if same_text(operation, "dequeue") {
            self.queued.pop_front();
            assert(before.len() > 0 ==> self@.queued =~= texts(before).drop_first());
            assert(before.len() == 0 ==> self@.queued =~= texts(before));
        } else if same_text(operation, "popAll") {
            self.queued.clear();
            assert(self@.queued =~= Seq::empty());
        }
    }
}

proof fn lemma_trimmed_empty()
    ensures
        trimmed(Seq::empty()) == Seq::<char>::empty(),
{
}

/// A record that the trail from `cursor` can still reach lies ahead only where it was not met.
proof fn lemma_trail(t: TranscriptView, cursor: Option<Seq<char>>, met: Seq<int>, across: bool)
    requires
        met.no_duplicates(),
        forall|k: int| 0 <= k < met.len() ==> 0 <= #[trigger] met[k] < t.records.len(),
    ensures
        t.trail(cursor, met, across).no_duplicates(),
        forall|k: int|
            0 <= k < t.trail(cursor, met, across).len() ==> 0 <= #[trigger] t.trail(
                cursor,
                met,
                across,
            )[k] < t.records.len(),
        met.is_prefix_of(t.trail(cursor, met, across)),
    decreases t.records.len() - met.len(),
{
    if let Some(uuid) = cursor {
        let place = place_of(t.records, uuid, 0);
        lemma_place_of(t.records, uuid, 0);
        if place < t.records.len() && !met.contains(place) && met.len() < t.records.len() {
            lemma_trail(
                t,
                TranscriptView::parent(t.records[place], across),
                met.push(place),
                across,
            );
            let whole = t.trail(cursor, met, across);
            assert(met.push(place).is_prefix_of(whole));
            assert(met.is_prefix_of(whole)) by {
                assert(met.push(place).subrange(0, met.len() as int) =~= met);
                assert forall|k: int| 0 <= k < met.len() implies met[k] == whole[k] by {
                    assert(met.push(place)[k] == whole[k]);
                }
            }
        }
    }
}

/// The way back is never cut short by its length: where every record met so far is a
/// different one and another lies ahead, there is room for it.
pub proof fn lemma_trail_is_never_cut_short(t: TranscriptView, met: Seq<int>, place: int)
    requires
        met.no_duplicates(),
        forall|k: int| 0 <= k < met.len() ==> 0 <= #[trigger] met[k] < t.records.len(),
        0 <= place < t.records.len(),
        !met.contains(place),
    ensures
        met.len() < t.records.len(),
{
    lemma_pigeonhole(met, t.records.len() as int, place);
}

/// Whatever the parents say, a cycle included, the way back meets no record twice and so
/// ends within as many steps as there are records.
pub proof fn lemma_path_terminates(t: TranscriptView, across: bool)
    ensures
        t.trail(t.leaf, Seq::empty(), across).no_duplicates(),
        t.trail(t.leaf, Seq::empty(), across).len() <= t.records.len(),
        t.path(across).len() <= t.records.len(),
{
    let trail = t.trail(t.leaf, Seq::empty(), across);
    lemma_trail(t, t.leaf, Seq::empty(), across);
    lemma_shown_length(t, trail);
    if trail.len() > t.records.len() {
        let all = vstd::set_lib::set_int_range(0, t.records.len() as int);
        vstd::set_lib::lemma_int_range(0, t.records.len() as int);
        trail.unique_seq_to_set();
        assert forall|x: int| trail.to_set().contains(x) implies all.contains(x) by {
            let k = choose|k: int| 0 <= k < trail.len() && trail[k] == x;
        }
        vstd::set_lib::lemma_len_subset(trail.to_set(), all);
    }
}

proof fn lemma_shown_length(t: TranscriptView, trail: Seq<int>)
    ensures
        t.shown(trail).len() <= trail.len(),
    decreases trail.len(),
{
    if trail.len() > 0 {
        lemma_shown_length(t, trail.drop_last());
    }
}

proof fn lemma_shown(t: TranscriptView, trail: Seq<int>)
    requires
        forall|k: int| 0 <= k < trail.len() ==> 0 <= #[trigger] trail[k] < t.records.len(),
    ensures
        forall|k: int|
            0 <= k < t.shown(trail).len() ==> t.shows(#[trigger] t.shown(trail)[k])
                && t.records.contains(t.shown(trail)[k]),
    decreases trail.len(),
{
    if trail.len() > 0 {
        let front = trail.drop_last();
        assert forall|k: int| 0 <= k < front.len() implies 0 <= #[trigger] front[k]
            < t.records.len() by {
            assert(front[k] == trail[k]);
        }
        lemma_shown(t, front);
        assert(trail.last() == trail[trail.len() - 1]);
        let record = t.records[trail.last()];
        assert(t.records.contains(record));
        let whole = t.shown(trail);
        assert forall|k: int| 0 <= k < whole.len() implies t.shows(#[trigger] whole[k])
            && t.records.contains(whole[k]) by {
            if t.shows(record) {
                if k > 0 {
                    assert(whole[k] == t.shown(front)[k - 1]);
                }
            } else {
                assert(whole[k] == t.shown(front)[k]);
            }
        }
    }
}

/// Every record on a path was absorbed, and none of another conversation is on it.
pub proof fn lemma_path_shows_only_the_conversation(t: TranscriptView, across: bool)
    ensures
        forall|k: int|
            0 <= k < t.path(across).len() ==> t.shows(#[trigger] t.path(across)[k])
                && t.records.contains(t.path(across)[k]),
{
    lemma_trail(t, t.leaf, Seq::empty(), across);
    lemma_shown(t, t.trail(t.leaf, Seq::empty(), across));
}

proof fn lemma_same_trail(t: TranscriptView, cursor: Option<Seq<char>>, met: Seq<int>)
    requires
        forall|k: int|
            0 <= k < t.records.len() ==> (#[trigger] t.records[k]).subtype != Some(
                "compact_boundary"@,
            ),
    ensures
        t.trail(cursor, met, true) == t.trail(cursor, met, false),
    decreases t.records.len() - met.len(),
{
    if let Some(uuid) = cursor {
        let place = place_of(t.records, uuid, 0);
        lemma_place_of(t.records, uuid, 0);
        if place < t.records.len() && !met.contains(place) && met.len() < t.records.len() {
            assert(t.records[place].subtype != Some("compact_boundary"@));
            lemma_same_trail(
                t,
                TranscriptView::parent(t.records[place], false),
                met.push(place),
            );
        }
    }
}

/// Where nothing was compacted, the whole conversation is the active one.
pub proof fn lemma_full_path_without_compaction(t: TranscriptView)
    requires
        forall|k: int|
            0 <= k < t.records.len() ==> (#[trigger] t.records[k]).subtype != Some(
                "compact_boundary"@,
            ),
    ensures
        t.path(true) == t.path(false),
{
    lemma_same_trail(t, t.leaf, Seq::empty());
}

/// Absorbing in pieces is absorbing at once.
pub proof fn lemma_absorb_in_pieces(
    t: TranscriptView,
    first: Seq<TranscriptRecordView>,
    second: Seq<TranscriptRecordView>,
)
    ensures
        t.with_records(first).with_records(second) == t.with_records(first + second),
    decreases second.len(),
{
    if second.len() == 0 {
        assert(first + second =~= first);
    } else {
        lemma_absorb_in_pieces(t, first, second.drop_last());
        assert((first + second).drop_last() =~= first + second.drop_last());
        assert((first + second).last() == second.last());
    }
}

/// A record whose uuid is known takes the place of the earlier one, moves nothing else,
/// and is reported as overwritten; any other record goes behind all.
pub proof fn lemma_overwriting_is_reported(t: TranscriptView, record: TranscriptRecordView)
    ensures
        ({
            let after = t.with_record(record);
            let known = record.uuid is Some && place_of(t.records, record.uuid->0, 0)
                < t.records.len();
            &&& known ==> after.records.len() == t.records.len() && after.overwritten
                == t.overwritten.push(record.uuid->0)
            &&& !known ==> after.records == t.records.push(record) && after.overwritten
                == t.overwritten
        }),
{
    if let Some(uuid) = record.uuid {
        lemma_place_of(t.records, uuid, 0);
    }
}

/// A sidechain record does not move the leaf of a session's own thread, and a record
/// without a uuid moves no leaf.
pub proof fn lemma_leaf_stays(t: TranscriptView, record: TranscriptRecordView)
    requires
        record.uuid is None || (record.is_sidechain && !t.reads_sidechain),
    ensures
        t.with_record(record).leaf == t.leaf,
{
}

pub open spec fn record_refs(records: Seq<&TranscriptRecord>) -> Seq<TranscriptRecordView> {
    records.map_values(|record: &TranscriptRecord| record@)
}

impl Transcript {
    /// The messages the user typed while a turn was running and that have not been taken
    /// into one yet, oldest first.
    ///
    /// The file holds a line of a queue log for every change to the queue and
    /// nothing that states what it holds, so this is the log played forward. The
    /// operations are:
    ///
    /// - `enqueue` — the text arrived and is waiting.
    /// - `remove` — that text left the queue, with a `reason` for why.
    /// - `dequeue` — the oldest went into a turn; it carries no text of its own.
    /// - `popAll` — the queue was taken whole.
    pub fn queued_messages(&self) -> (queued: &VecDeque<String>)
        ensures
            texts(queued@) == self@.queued,
    {
        &self.queued
    }

    pub fn is_empty(&self) -> (result: bool)
        ensures
            result == (self@.records.len() == 0),
    {
        self.records.len() == 0
    }

    /// The uuids whose record has been replaced by a later record carrying the same
    /// uuid, in the order the replacements happened. A caller that caches anything
    /// derived from a record drops these keys: absorbing is otherwise append-only, so
    /// this is the only way a record it has already seen can have changed.
    pub fn overwritten_uuids(&self) -> (uuids: &[String])
        ensures
            texts(uuids@) == self@.overwritten,
    {
        self.overwritten_uuids.as_slice()
    }

    /// The context the model currently sees: from the leaf back along `parentUuid`,
    /// stopping at the first record without a parent. After a compaction this begins
    /// at the compact boundary, because compaction deliberately severs the chain.
    pub fn active_path(&self) -> (path: Vec<&TranscriptRecord>)
        requires
            self.well_formed(),
        ensures
            record_refs(path@) == self@.path(false),
    {
        self.walk(false)
    }

    /// The whole conversation including everything compaction dropped from the model's
    /// context: like [`Self::active_path`], but a compact boundary is followed through
    /// its `logicalParentUuid` back to the pre-compaction leaf. Boundary records stay in
    /// the result so the UI can draw the seam.
    pub fn full_path(&self) -> (path: Vec<&TranscriptRecord>)
        requires
            self.well_formed(),
        ensures
            record_refs(path@) == self@.path(true),
    {
        self.walk(true)
    }

    fn walk(&self, follow_logical_parent: bool) -> (path: Vec<&TranscriptRecord>)
        requires
            self.well_formed(),
        ensures
            record_refs(path@) == self@.path(follow_logical_parent),
    {
        let ghost t = self@;
        let ghost across = follow_logical_parent;
        let ghost whole = t.trail(t.leaf, Seq::empty(), across);
        let ghost mut met: Seq<int> = Seq::empty();
        let mut visited: Vec<bool> = Vec::new();
        while visited.len() < self.records.len()
            invariant
                visited@.len() <= self.records@.len(),
                forall|k: int| 0 <= k < visited@.len() ==> !#[trigger] visited@[k],
            decreases self.records@.len() - visited@.len(),
        {
            visited.push(false);
        }
        let mut backward: Vec<&TranscriptRecord> = Vec::new();
        let mut cursor: Option<&String> = self.leaf_uuid.as_ref();
        let mut walking = true;
        assert(record_refs(backward@).reverse() =~= t.shown(met));
        while walking
            invariant
                t == self@,
                self.well_formed(),
                t.records.len() == self.records@.len(),
                across == follow_logical_parent,
                visited@.len() == self.records@.len(),
                forall|k: int| 0 <= k < visited@.len() ==> #[trigger] visited@[k] == met.contains(k),
                met.no_duplicates(),
                forall|k: int| 0 <= k < met.len() ==> 0 <= #[trigger] met[k] < t.records.len(),
                walking ==> whole == t.trail(
                    match cursor {
                        Some(uuid) => Some(uuid@),
                        None => None,
                    },
                    met,
                    across,
                ),
                !walking ==> whole == met,
                record_refs(backward@).reverse() == t.shown(met),
            decreases t.records.len() - met.len(), (if walking { 1int } else { 0int }),
        {
            let uuid = match cursor {
                Some(uuid) => uuid,
                None => {
                    walking = false;
                    continue;
                },
            };
            proof {
                self.lemma_index(uuid@);
            }
            // The parent may be missing because the tail of the file has not been read
            // yet, or because the file is damaged. Returning the partial path is more
            // useful than returning nothing.
            let index: usize = match self.index_by_uuid.get(uuid.as_str()) {
                Some(index) => *index,
                None => {
                    walking = false;
                    continue;
                },
            };
            // A corrupted or hand-edited file can contain a parent cycle; revisiting a
            // record is the only reliable way to notice one.
            if visited[index] {
                walking = false;
                continue;
            }
            visited.set(index, true);
            let record = &self.records[index];
            let logical = if follow_logical_parent {
                match &record.subtype {
                    Some(subtype) => same_text(subtype.as_str(), "compact_boundary"),
                    None => false,
                }
            } else {
                false
            };
            cursor = if logical && record.logical_parent_uuid.is_some() {
                record.logical_parent_uuid.as_ref()
            } else {
                record.parent_uuid.as_ref()
            };
            // Skipped rather than pushed: a sidechain record must never appear in a main
            // thread's path, but its ancestors are still worth keeping if a chain runs
            // through one. When the conversation being read is one agent's own, the same
            // records are the conversation.
            let ghost before = backward@;
            if self.reads_sidechain || !record.is_sidechain {
                backward.push(record);
            }
            proof {
                let place = index as int;
                assert(t.records[place] == record@);
                lemma_pigeonhole(met, t.records.len() as int, place);
                let longer = met.push(place);
                assert(longer.drop_last() =~= met);
                assert(longer.last() == place);
                if t.shows(record@) {
                    assert(record_refs(backward@).reverse() =~= seq![record@] + record_refs(
                        before,
                    ).reverse());
                }
                assert forall|k: int| 0 <= k < visited@.len() implies #[trigger] visited@[k]
                    == longer.contains(k) by {
                    if k == place {
                        assert(longer[longer.len() - 1] == place);
                    } else {
                        if met.contains(k) {
                            let at = choose|at: int| 0 <= at < met.len() && met[at] == k;
                            assert(longer[at] == k);
                        }
                    }
                }
                met = longer;
            }
        }
        let path = reversed(&backward);
        assert(record_refs(path@) =~= record_refs(backward@).reverse());
        path
    }

    pub fn compact_boundaries(&self) -> (boundaries: Vec<&TranscriptRecord>)
        ensures
            record_refs(boundaries@) == boundaries_of(self@.records),
    {
        let ghost t = self@;
        let mut boundaries: Vec<&TranscriptRecord> = Vec::new();
        let mut i: usize = 0;
        assert(record_refs(boundaries@) =~= Seq::empty());
        while i < self.records.len()
            invariant
                t == self@,
                t.records.len() == self.records@.len(),
                i <= self.records@.len(),
                record_refs(boundaries@) == boundaries_of(t.records.take(i as int)),
            decreases self.records@.len() - i,
        {
            let record = &self.records[i];
            proof {
                assert(t.records[i as int] == record@);
                assert(t.records.take(i + 1).drop_last() =~= t.records.take(i as int));
                assert(t.records.take(i + 1).last() == record@);
            }
            let boundary = match &record.subtype {
                Some(subtype) => same_text(subtype.as_str(), "compact_boundary"),
                None => false,
            };
            if boundary {
                let ghost before = boundaries@;
                boundaries.push(record);
                assert(record_refs(boundaries@) =~= record_refs(before).push(record@));
            }
            i = i + 1;
        }
        assert(t.records.take(i as int) =~= t.records);
        boundaries
    }
}

/// The records that mark a compaction, in the order they stand in.
pub open spec fn boundaries_of(records: Seq<TranscriptRecordView>) -> Seq<TranscriptRecordView>
    decreases records.len(),
{
    if records.len() == 0 {
        Seq::empty()
    } else {
        let earlier = boundaries_of(records.drop_last());
        if records.last().subtype == Some("compact_boundary"@) {
            earlier.push(records.last())
        } else {
            earlier
        }
    }
}

fn reversed<'a>(records: &Vec<&'a TranscriptRecord>) -> (result: Vec<&'a TranscriptRecord>)
    ensures
        result@ == records@.reverse(),
{
    let mut result: Vec<&'a TranscriptRecord> = Vec::new();
    let mut left: usize = records.len();
    while left > 0
        invariant
            left <= records@.len(),
            result@ == records@.skip(left as int).reverse(),
        decreases left,
    {
        left = left - 1;
        result.push(records[left]);
        assert(records@.skip(left as int).reverse() =~= records@.skip(left + 1).reverse().push(
            records@[left as int],
        ));
    }
    assert(records@.skip(0) =~= records@);
    result
}

/// What a session has spent, and how the model answering it is configured.
pub struct Spend {
    /// Totalled over every answer in the file.
    pub usage: Usage,
    /// What was reported for this session, when a `cost-state` record has been written
    /// for it yet. Shown in preference to the total derived from `usage`.
    pub reported: Option<ReportedCost>,
    /// How many answers that total covers.
    pub answers: u64,
    /// The context the newest answer was given, which is the size the next one starts
    /// from. After a compaction that no answer has followed yet, what the compaction says
    /// it kept; see `context_is_post_compaction`.
    pub context_tokens: u64,
    /// Whether `context_tokens` came from a compaction rather than from an answer. Said
    /// because the two count different things: an answer's usage is the whole request,
    /// and a compaction's figure is the conversation it kept, without the system prompt,
    /// the tool definitions or the skills that the next request re-sends. It reads far
    /// below what that request will measure, so it is marked where it is shown.
    pub context_is_post_compaction: bool,
    /// Read from the newest answer that named one, so that a session whose model or
    /// effort changed part-way reports what it is on now.
    pub model: Option<String>,
    pub effort: Option<String>,
}

/// What a session is said to have cost by its `cost-state` record.
///
/// Preferred over any total derived from token counts: the writer knows the rates for
/// every model it ran, including ones this code has no rates for. `has_unknown_model_cost`
/// carries its own admission that a figure is incomplete, and is passed on rather than
/// hidden.
pub struct ReportedCost {
    pub total_usd: Double,
    pub has_unknown_model_cost: bool,
    /// Milliseconds spent waiting on the API, retries included.
    pub api_duration_ms: u64,
    /// Milliseconds spent running tools.
    pub tool_duration_ms: u64,
    pub lines_added: u64,
    pub lines_removed: u64,
    /// Per-model usage from `modelUsage` on the same record, in the order of that object.
    /// Empty when the field is missing or not an object.
    pub model_usage: Vec<(String, ModelUsage)>,
}

/// One model's slice of a `cost-state` `modelUsage` map.
#[derive(Clone, Copy, Debug, PartialEq, Eq, Structural)]
pub struct ModelUsage {
    pub input_tokens: u64,
    pub output_tokens: u64,
    pub cache_read_tokens: u64,
    pub cache_creation_tokens: u64,
    pub cost_usd: Double,
}

/// What a [`ReportedCost`] says.
#[verifier::ext_equal]
pub struct ReportedCostView {
    pub total_usd: Double,
    pub has_unknown_model_cost: bool,
    pub api_duration_ms: u64,
    pub tool_duration_ms: u64,
    pub lines_added: u64,
    pub lines_removed: u64,
    pub model_usage: Seq<(Seq<char>, ModelUsage)>,
}

pub open spec fn model_usage_view(usage: Seq<(String, ModelUsage)>) -> Seq<
    (Seq<char>, ModelUsage),
> {
    usage.map_values(|entry: (String, ModelUsage)| (entry.0@, entry.1))
}

impl View for ReportedCost {
    type V = ReportedCostView;

    open spec fn view(&self) -> ReportedCostView {
        ReportedCostView {
            total_usd: self.total_usd,
            has_unknown_model_cost: self.has_unknown_model_cost,
            api_duration_ms: self.api_duration_ms,
            tool_duration_ms: self.tool_duration_ms,
            lines_added: self.lines_added,
            lines_removed: self.lines_removed,
            model_usage: model_usage_view(self.model_usage@),
        }
    }
}

/// What a [`Spend`] says.
pub struct SpendView {
    pub usage: Usage,
    pub reported: Option<ReportedCostView>,
    pub answers: u64,
    pub context_tokens: u64,
    pub context_is_post_compaction: bool,
    pub model: Option<Seq<char>>,
    pub effort: Option<Seq<char>>,
}

pub open spec fn reported_option(reported: Option<ReportedCost>) -> Option<ReportedCostView> {
    match reported {
        Some(reported) => Some(reported@),
        None => None,
    }
}

impl View for Spend {
    type V = SpendView;

    open spec fn view(&self) -> SpendView {
        SpendView {
            usage: self.usage,
            reported: reported_option(self.reported),
            answers: self.answers,
            context_tokens: self.context_tokens,
            context_is_post_compaction: self.context_is_post_compaction,
            model: text_option(self.model),
            effort: text_option(self.effort),
        }
    }
}

impl Default for Spend {
    fn default() -> (spend: Self)
        ensures
            spend@ == SpendView::nothing(),
    {
        Spend {
            usage: Usage::default(),
            reported: None,
            answers: 0,
            context_tokens: 0,
            context_is_post_compaction: false,
            model: None,
            effort: None,
        }
    }
}

/// A number as it was written, where the value is one.
pub open spec fn number_of(value: Option<JsonView>) -> Option<Double> {
    match value {
        Some(JsonView::Number(number)) => number.double,
        _ => None,
    }
}

pub open spec fn zero_double() -> Double {
    Double { bits: 0 }
}

/// A count under the first of two keys that holds one.
pub open spec fn either_count(value: JsonView, key: Seq<char>, other: Seq<char>) -> u64 {
    match value.get(key) {
        Some(first) if first.as_u64() is Some => first.as_u64()->0,
        _ => count(value.get(other)),
    }
}

/// The cost of a model: under `costUSD`, or where that is missing under `costUsd`.
pub open spec fn model_cost(entry: JsonView) -> Double {
    let cost = match entry.get("costUSD"@) {
        Some(cost) => Some(cost),
        None => entry.get("costUsd"@),
    };
    match number_of(cost) {
        Some(cost) => cost,
        None => zero_double(),
    }
}

pub open spec fn model_usage_of(entry: JsonView) -> ModelUsage {
    ModelUsage {
        input_tokens: either_count(entry, "inputTokens"@, "input_tokens"@),
        output_tokens: either_count(entry, "outputTokens"@, "output_tokens"@),
        cache_read_tokens: either_count(entry, "cacheReadInputTokens"@, "cache_read_input_tokens"@),
        cache_creation_tokens: either_count(
            entry,
            "cacheCreationInputTokens"@,
            "cache_creation_input_tokens"@,
        ),
        cost_usd: model_cost(entry),
    }
}

/// The usage of each model whose entry is an object.
pub open spec fn models_of(entries: Seq<(Seq<char>, JsonView)>) -> Seq<(Seq<char>, ModelUsage)>
    decreases entries.len(),
{
    if entries.len() == 0 {
        Seq::empty()
    } else {
        let earlier = models_of(entries.drop_last());
        if entries.last().1 is Object {
            earlier.push((entries.last().0, model_usage_of(entries.last().1)))
        } else {
            earlier
        }
    }
}

/// The cost that a `cost-state` record reports; none where it names no total.
pub open spec fn reported_cost_of(raw: JsonView) -> Option<ReportedCostView> {
    match number_of(raw.get("totalCostUSD"@)) {
        Some(total_usd) => Some(
            ReportedCostView {
                total_usd,
                has_unknown_model_cost: bool_field(raw.get("hasUnknownModelCost"@)) == Some(true),
                api_duration_ms: count(raw.get("totalAPIDuration"@)),
                tool_duration_ms: count(raw.get("totalToolDuration"@)),
                lines_added: count(raw.get("totalLinesAdded"@)),
                lines_removed: count(raw.get("totalLinesRemoved"@)),
                model_usage: match raw.get("modelUsage"@) {
                    Some(JsonView::Object(entries)) => models_of(entries),
                    _ => Seq::empty(),
                },
            },
        ),
        None => None,
    }
}

impl SpendView {
    pub open spec fn nothing() -> SpendView {
        SpendView {
            usage: Usage::none(),
            reported: None,
            answers: 0,
            context_tokens: 0,
            context_is_post_compaction: false,
            model: None,
            effort: None,
        }
    }

    /// The spend after one more record.
    pub open spec fn with_record(self, record: TranscriptRecordView) -> SpendView {
        if record.record_type == "cost-state"@ {
            // A snapshot of the whole session, so the newest one is the answer.
            SpendView { reported: reported_cost_of(record.raw), ..self }
        } else if record.subtype == Some("compact_boundary"@) {
            match record.compact_metadata {
                Some(metadata) if metadata.post_tokens is Some => SpendView {
                    context_tokens: metadata.post_tokens->0,
                    context_is_post_compaction: true,
                    ..self
                },
                _ => self,
            }
        } else {
            match record_usage(record.raw) {
                Some(usage) => SpendView {
                    usage: self.usage.plus(usage),
                    reported: self.reported,
                    answers: capped_sum(self.answers as int, 1),
                    context_tokens: usage.context(),
                    context_is_post_compaction: false,
                    model: match text_field(field(record.raw.get("message"@), "model"@)) {
                        Some(model) => Some(model),
                        None => self.model,
                    },
                    effort: match text_field(record.raw.get("effort"@)) {
                        Some(effort) => Some(effort),
                        None => self.effort,
                    },
                },
                None => self,
            }
        }
    }

    /// The spend of records, in the order they stand in.
    pub open spec fn of(records: Seq<TranscriptRecordView>) -> SpendView
        decreases records.len(),
    {
        if records.len() == 0 {
            SpendView::nothing()
        } else {
            SpendView::of(records.drop_last()).with_record(records.last())
        }
    }
}

/// The size of the context that a record gives, and whether it is what a compaction kept.
pub open spec fn context_figure(record: TranscriptRecordView) -> Option<(u64, bool)> {
    if record.record_type == "cost-state"@ {
        None
    } else if record.subtype == Some("compact_boundary"@) {
        match record.compact_metadata {
            Some(metadata) if metadata.post_tokens is Some => Some((metadata.post_tokens->0, true)),
            _ => None,
        }
    } else {
        match record_usage(record.raw) {
            Some(usage) => Some((usage.context(), false)),
            None => None,
        }
    }
}

/// The context is the newest figure: what an answer measured, or what a compaction behind it
/// says that it kept, until the next answer measures it again.
pub proof fn lemma_context_is_the_newest_figure(records: Seq<TranscriptRecordView>, newest: int)
    requires
        -1 <= newest < records.len(),
        newest >= 0 ==> context_figure(records[newest]) is Some,
        forall|k: int| newest < k < records.len() ==> context_figure(#[trigger] records[k]) is None,
    ensures
        SpendView::of(records).context_tokens == (if newest >= 0 {
            (context_figure(records[newest])->0).0
        } else {
            0
        }),
        SpendView::of(records).context_is_post_compaction == (newest >= 0 && (context_figure(
            records[newest],
        )->0).1),
    decreases records.len(),
{
    if records.len() > 0 && newest < records.len() - 1 {
        let rest = records.drop_last();
        assert forall|k: int| newest < k < rest.len() implies context_figure(
            #[trigger] rest[k],
        ) is None by {
            assert(rest[k] == records[k]);
        }
        assert(context_figure(records[records.len() - 1]) is None);
        lemma_context_is_the_newest_figure(rest, newest);
    }
}

fn number_field(value: Option<&Json>) -> (number: Option<Double>)
    ensures
        number == number_of(json_ref_option(value)),
{
    match value {
        Some(Json::Number(number)) => number.double,
        _ => None,
    }
}

fn either_count_field(value: &Json, key: &str, other: &str) -> (result: u64)
    ensures
        result == either_count(value@, key@, other@),
{
    match value.get(key) {
        Some(first) => match first.as_u64() {
            Some(count) => {
                return count;
            },
            None => {},
        },
        None => {},
    }
    count_field(value.get(other))
}

fn parse_model_usage(value: Option<&Json>) -> (usage: Vec<(String, ModelUsage)>)
    ensures
        model_usage_view(usage@) == (match json_ref_option(value) {
            Some(JsonView::Object(entries)) => models_of(entries),
            _ => Seq::empty(),
        }),
{
    let mut usage: Vec<(String, ModelUsage)> = Vec::new();
    assert(model_usage_view(usage@) =~= Seq::empty());
    match value {
        Some(Json::Object(entries)) => {
            let ghost all = json_ref_option(value)->0->Object_0;
            let mut i: usize = 0;
            assert(all.take(0) =~= Seq::empty());
            while i < entries.len()
                invariant
                    i <= entries@.len(),
                    value is Some,
                    *value->0 == Json::Object(*entries),
                    all == json_ref_option(value)->0->Object_0,
                    all.len() == entries@.len(),
                    model_usage_view(usage@) == models_of(all.take(i as int)),
                decreases entries@.len() - i,
            {
                let entry = &entries[i].1;
                proof {
                    assert(all[i as int] == (entries@[i as int].0@, entries@[i as int].1@));
                    assert(all.take(i + 1).drop_last() =~= all.take(i as int));
                    assert(all.take(i + 1).last() == all[i as int]);
                }
                if entry.is_object() {
                    let cost = match entry.get("costUSD") {
                        Some(cost) => Some(cost),
                        None => entry.get("costUsd"),
                    };
                    let model = ModelUsage {
                        input_tokens: either_count_field(entry, "inputTokens", "input_tokens"),
                        output_tokens: either_count_field(entry, "outputTokens", "output_tokens"),
                        cache_read_tokens: either_count_field(
                            entry,
                            "cacheReadInputTokens",
                            "cache_read_input_tokens",
                        ),
                        cache_creation_tokens: either_count_field(
                            entry,
                            "cacheCreationInputTokens",
                            "cache_creation_input_tokens",
                        ),
                        cost_usd: match number_field(cost) {
                            Some(cost) => cost,
                            None => Double { bits: 0 },
                        },
                    };
                    let ghost before = usage@;
                    usage.push((entries[i].0.clone(), model));
                    assert(model_usage_view(usage@) =~= model_usage_view(before).push(
                        (entries@[i as int].0@, model),
                    ));
                }
                i = i + 1;
            }
            assert(all.take(i as int) =~= all);
        },
        _ => {},
    }
    usage
}

impl ReportedCost {
    pub fn from_record(raw: &Json) -> (reported: Option<ReportedCost>)
        ensures
            reported_option(reported) == reported_cost_of(raw@),
    {
        match number_field(raw.get("totalCostUSD")) {
            Some(total_usd) => Some(
                ReportedCost {
                    total_usd,
                    has_unknown_model_cost: match flag_field(raw.get("hasUnknownModelCost")) {
                        Some(unknown) => unknown,
                        None => false,
                    },
                    api_duration_ms: count_field(raw.get("totalAPIDuration")),
                    tool_duration_ms: count_field(raw.get("totalToolDuration")),
                    lines_added: count_field(raw.get("totalLinesAdded")),
                    lines_removed: count_field(raw.get("totalLinesRemoved")),
                    model_usage: parse_model_usage(raw.get("modelUsage")),
                },
            ),
            None => None,
        }
    }
}

impl Transcript {
    /// What the session has spent and how it is configured, read from its own answers.
    ///
    /// Totalled over every answer in the file rather than over the conversation on
    /// screen: compaction shortens that, and a bill does not shrink because the history
    /// behind it was summarised. Walked on each call rather than accumulated, because an
    /// answer's record is rewritten as it streams — adding each one as it arrived would
    /// count the same answer many times.
    pub fn spend(&self) -> (spend: Spend)
        ensures
            spend@ == SpendView::of(self@.records),
    {
        let ghost records = self@.records;
        let mut spend = Spend::default();
        let mut i: usize = 0;
        while i < self.records.len()
            invariant
                i <= self.records@.len(),
                records == self@.records,
                records.len() == self.records@.len(),
                spend@ == SpendView::of(records.take(i as int)),
            decreases self.records@.len() - i,
        {
            let record = &self.records[i];
            proof {
                assert(records[i as int] == record@);
                assert(records.take(i + 1).drop_last() =~= records.take(i as int));
                assert(records.take(i + 1).last() == record@);
            }
            spend_record(&mut spend, record);
            i = i + 1;
        }
        assert(records.take(i as int) =~= records);
        spend
    }
}

fn spend_record(spend: &mut Spend, record: &TranscriptRecord)
    ensures
        final(spend)@ == old(spend)@.with_record(record@),
{
    if same_text(record.record_type.as_str(), "cost-state") {
        // Preferred over the total derived from token counts: it is the writer's own
        // figure, and it prices models this code may not know the rates for.
        spend.reported = ReportedCost::from_record(&record.raw);
        return;
    }
    let boundary = match &record.subtype {
        Some(subtype) => same_text(subtype.as_str(), "compact_boundary"),
        None => false,
    };
    if boundary {
        // A compaction replaces the conversation the next answer will be given, so
        // the context the last answer measured is no longer what the session carries.
        if let Some(metadata) = &record.compact_metadata {
            if let Some(post_tokens) = metadata.post_tokens {
                spend.context_tokens = post_tokens;
                spend.context_is_post_compaction = true;
            }
        }
        return;
    }
    if let Some(usage) = Usage::from_record(&record.raw) {
        spend.usage = spend.usage.add(usage);
        spend.answers = spend.answers.saturating_add(1);
        // The newest answer's own numbers, which say how the session is running now
        // rather than how it ran across the whole file.
        spend.context_tokens = usage.context_tokens();
        spend.context_is_post_compaction = false;
        if let Some(model) = string_field(sub_field(record.raw.get("message"), "model")) {
            spend.model = Some(model);
        }
        if let Some(effort) = string_field(record.raw.get("effort")) {
            spend.effort = Some(effort);
        }
    }
}

/// The text that the newest record of a kind holds under a key. What stands there must
/// still be of that kind: a record can be replaced.
pub open spec fn text_at(
    records: Seq<TranscriptRecordView>,
    at: Option<usize>,
    record_type: Seq<char>,
    key: Seq<char>,
) -> Option<Seq<char>> {
    match at {
        Some(at) if at < records.len() && records[at as int].record_type == record_type =>
            text_field(records[at as int].raw.get(key)),
        _ => None,
    }
}

/// The attachment of a record, if it is of this kind.
pub open spec fn attachment_of(record: TranscriptRecordView, kind: Seq<char>) -> Option<JsonView> {
    match record.raw.get("attachment"@) {
        Some(attachment) if text_field(attachment.get("type"@)) == Some(kind) => Some(attachment),
        _ => None,
    }
}

/// The attachment that the newest record noted for a kind still is.
pub open spec fn attachment_at(
    records: Seq<TranscriptRecordView>,
    at: Option<usize>,
    kind: Seq<char>,
) -> Option<JsonView> {
    match at {
        Some(at) if at < records.len() => attachment_of(records[at as int], kind),
        _ => None,
    }
}

pub open spec fn str_option(text: Option<&str>) -> Option<Seq<char>> {
    match text {
        Some(text) => Some(text@),
        None => None,
    }
}

fn attachment_of_type<'a>(record: &'a TranscriptRecord, kind: &str) -> (attachment: Option<
    &'a Json,
>)
    ensures
        json_ref_option(attachment) == attachment_of(record@, kind@),
{
    match record.raw.get("attachment") {
        Some(attachment) => {
            let matches = match attachment.get("type") {
                Some(Json::Text(text)) => same_text(text.as_str(), kind),
                _ => false,
            };
            if matches {
                Some(attachment)
            } else {
                None
            }
        },
        None => None,
    }
}

fn borrowed_text<'a>(value: Option<&'a Json>) -> (text: Option<&'a str>)
    ensures
        str_option(text) == text_field(json_ref_option(value)),
{
    match value {
        Some(Json::Text(text)) => Some(text.as_str()),
        _ => None,
    }
}

pub open spec fn is_set(attachment: JsonView, key: Seq<char>) -> bool {
    bool_field(attachment.get(key)) == Some(true)
}

fn flag(attachment: &Json, key: &str) -> (result: bool)
    ensures
        result == is_set(attachment@, key@),
{
    match flag_field(attachment.get(key)) {
        Some(flag) => flag,
        None => false,
    }
}

pub open spec fn auto_mode_of(attachment: Option<JsonView>) -> Option<AutoModeFlags> {
    match attachment {
        Some(attachment) => Some(
            AutoModeFlags {
                bash_first: is_set(attachment, "bashFirst"@),
                steer_only: is_set(attachment, "steerOnly"@),
                bypass: is_set(attachment, "bypass"@),
            },
        ),
        None => None,
    }
}

impl TranscriptView {
    /// The permission mode that was recorded last.
    pub open spec fn permission_mode(self) -> Option<Seq<char>> {
        text_at(self.records, self.permission_mode_at, "permission-mode"@, "permissionMode"@)
    }

    /// The title that was recorded last.
    pub open spec fn ai_title(self) -> Option<Seq<char>> {
        text_at(self.records, self.ai_title_at, "ai-title"@, "aiTitle"@)
    }

    /// The bridge session that was recorded last.
    pub open spec fn bridge_session_id(self) -> Option<Seq<char>> {
        text_at(self.records, self.bridge_session_at, "bridge-session"@, "bridgeSessionId"@)
    }

    /// The tokens that the newest reminder says are left.
    pub open spec fn tokens_left(self) -> Option<u64> {
        let reminder = attachment_at(
            self.records,
            self.tokens_left_at,
            "total_tokens_reminder"@,
        );
        match text_field(field(reminder, "text"@)) {
            Some(text) => tokens_left_in(text),
            None => None,
        }
    }

    /// The flags of the newest attachment on the auto mode.
    pub open spec fn auto_mode(self) -> Option<AutoModeFlags> {
        auto_mode_of(attachment_at(self.records, self.auto_mode_at, "auto_mode"@))
    }

    /// What the newest attachment on the auto mode steers by, where it is not blank.
    pub open spec fn auto_mode_steer(self) -> Option<Seq<char>> {
        let attachment = attachment_at(self.records, self.auto_mode_at, "auto_mode"@);
        match text_field(field(attachment, "bashFirstSteer"@)) {
            Some(steer) if trimmed(steer).len() > 0 => Some(trimmed(steer)),
            _ => None,
        }
    }
}

impl Transcript {
    fn record_at(&self, at: Option<usize>) -> (record: Option<&TranscriptRecord>)
        ensures
            match record {
                Some(record) => at is Some && at->0 < self@.records.len() && record@
                    == self@.records[at->0 as int],
                None => at is None || at->0 >= self@.records.len(),
            },
    {
        match at {
            Some(at) => if at < self.records.len() {
                Some(&self.records[at])
            } else {
                None
            },
            None => None,
        }
    }

    fn string_at(&self, at: Option<usize>, record_type: &str, key: &str) -> (text: Option<&str>)
        ensures
            str_option(text) == text_at(self@.records, at, record_type@, key@),
    {
        match self.record_at(at) {
            Some(record) => if same_text(record.record_type.as_str(), record_type) {
                borrowed_text(record.raw.get(key))
            } else {
                None
            },
            None => None,
        }
    }

    /// The permission mode the transcript last recorded, which is not the `mode` record.
    pub fn permission_mode(&self) -> (mode: Option<&str>)
        ensures
            str_option(mode) == text_at(
                self@.records,
                self@.permission_mode_at,
                "permission-mode"@,
                "permissionMode"@,
            ),
            str_option(mode) == self@.permission_mode(),
    {
        self.string_at(self.last_permission_mode_index, "permission-mode", "permissionMode")
    }

    pub fn ai_title(&self) -> (title: Option<&str>)
        ensures
            str_option(title) == text_at(
                self@.records,
                self@.ai_title_at,
                "ai-title"@,
                "aiTitle"@,
            ),
            str_option(title) == self@.ai_title(),
    {
        self.string_at(self.last_ai_title_index, "ai-title", "aiTitle")
    }

    pub fn bridge_session_id(&self) -> (id: Option<&str>)
        ensures
            str_option(id) == text_at(
                self@.records,
                self@.bridge_session_at,
                "bridge-session"@,
                "bridgeSessionId"@,
            ),
            str_option(id) == self@.bridge_session_id(),
    {
        self.string_at(self.last_bridge_session_index, "bridge-session", "bridgeSessionId")
    }

    /// Tokens remaining in the budget, from the newest `total_tokens_reminder` attachment.
    pub fn tokens_left(&self) -> (tokens: Option<u64>)
        ensures
            tokens == (match text_field(
                field(
                    attachment_at(
                        self@.records,
                        self@.tokens_left_at,
                        "total_tokens_reminder"@,
                    ),
                    "text"@,
                ),
            ) {
                Some(text) => tokens_left_in(text),
                None => None,
            }),
            tokens == self@.tokens_left(),
    {
        // Re-checked rather than trusted: `absorb` replaces a record in place when its
        // uuid comes back, and what comes back need not be the attachment the index was
        // noted for.
        let attachment = match self.record_at(self.last_tokens_left_index) {
            Some(record) => attachment_of_type(record, "total_tokens_reminder"),
            None => None,
        };
        match borrowed_text(sub_field(attachment, "text")) {
            Some(text) => parse_tokens_left(text),
            None => None,
        }
    }

    /// The newest `auto_mode` attachment's flags, if the transcript has recorded one.
    pub fn auto_mode(&self) -> (flags: Option<AutoModeFlags>)
        ensures
            flags == auto_mode_of(
                attachment_at(self@.records, self@.auto_mode_at, "auto_mode"@),
            ),
            flags == self@.auto_mode(),
    {
        match self.record_at(self.last_auto_mode_index) {
            Some(record) => parse_auto_mode(record),
            None => None,
        }
    }

    /// The `bashFirstSteer` the newest `auto_mode` attachment carries. It is a free
    /// string rather than a flag, so it sits beside [`AutoModeFlags`] instead of in it.
    pub fn auto_mode_steer(&self) -> (steer: Option<&str>)
        ensures
            str_option(steer) == (match text_field(
                field(
                    attachment_at(self@.records, self@.auto_mode_at, "auto_mode"@),
                    "bashFirstSteer"@,
                ),
            ) {
                Some(steer) if trimmed(steer).len() > 0 => Some(trimmed(steer)),
                _ => None,
            }),
            str_option(steer) == self@.auto_mode_steer(),
    {
        let attachment = match self.record_at(self.last_auto_mode_index) {
            Some(record) => attachment_of_type(record, "auto_mode"),
            None => None,
        };
        match borrowed_text(sub_field(attachment, "bashFirstSteer")) {
            Some(steer) => {
                let steer = trim(steer);
                if steer.is_empty() {
                    None
                } else {
                    Some(steer)
                }
            },
            None => None,
        }
    }
}

fn parse_auto_mode(record: &TranscriptRecord) -> (flags: Option<AutoModeFlags>)
    ensures
        flags == auto_mode_of(attachment_of(record@, "auto_mode"@)),
{
    match attachment_of_type(record, "auto_mode") {
        Some(attachment) => Some(
            AutoModeFlags {
                bash_first: flag(attachment, "bashFirst"),
                steer_only: flag(attachment, "steerOnly"),
                bypass: flag(attachment, "bypass"),
            },
        ),
        None => None,
    }
}

/// A character of a count: a digit, or a mark that groups digits.
pub open spec fn in_count(c: char) -> bool {
    is_digit(c) || c == ',' || c == '_'
}

/// How far the run of count characters at the start of a text goes.
pub open spec fn count_run(text: Seq<char>) -> int
    decreases text.len(),
{
    if text.len() > 0 && in_count(text[0]) {
        1 + count_run(text.drop_first())
    } else {
        0
    }
}

/// The digits among the characters of a text.
pub open spec fn digits_in(text: Seq<char>) -> Seq<char>
    decreases text.len(),
{
    if text.len() == 0 {
        Seq::empty()
    } else if is_digit(text.last()) {
        digits_in(text.drop_last()).push(text.last())
    } else {
        digits_in(text.drop_last())
    }
}

/// What a magnitude suffix written against the digits stands for.
pub open spec fn magnitude(suffix: Option<char>) -> u64 {
    match suffix {
        Some('K') => 1_000,
        Some('k') => 1_000,
        Some('M') => 1_000_000,
        Some('m') => 1_000_000,
        Some('G') => 1_000_000_000,
        Some('g') => 1_000_000_000,
        _ => 1,
    }
}

/// The count that a text begins with: a digit, then digits and grouping marks, then
/// perhaps a magnitude suffix. None where it begins otherwise, where decimals follow and
/// what was read is not the whole count, or where the count is too large.
pub open spec fn leading_count(text: Seq<char>) -> Option<u64> {
    let run = count_run(text);
    let digits = digits_in(text.take(run));
    let suffix = if run < text.len() {
        Some(text[run])
    } else {
        None
    };
    let has_decimals = run + 1 < text.len() && text[run] == '.' && is_digit(text[run + 1]);
    if text.len() > 0 && is_digit(text[0]) && !has_decimals && decimal_value(digits) * magnitude(
        suffix,
    ) <= u64::MAX {
        Some((decimal_value(digits) * magnitude(suffix)) as u64)
    } else {
        None
    }
}

/// The count behind the first `<total_tokens>` of a text.
pub open spec fn tokens_left_in(text: Seq<char>) -> Option<u64> {
    let open = "<total_tokens>"@;
    if exists|at: int| stands_at(text, open, at) {
        let first = choose|at: int|
            stands_at(text, open, at) && forall|k: int| 0 <= k < at ==> !stands_at(text, open, k);
        leading_count(trim_start(text.skip(first + open.len())))
    } else {
        None
    }
}

proof fn lemma_digits_are_decimal(text: Seq<char>)
    ensures
        forall|k: int| 0 <= k < digits_in(text).len() ==> is_digit(#[trigger] digits_in(text)[k]),
    decreases text.len(),
{
    if text.len() > 0 {
        let earlier = digits_in(text.drop_last());
        lemma_digits_are_decimal(text.drop_last());
        assert forall|k: int| 0 <= k < digits_in(text).len() implies is_digit(
            #[trigger] digits_in(text)[k],
        ) by {
            if k < earlier.len() {
                assert(digits_in(text)[k] == earlier[k]);
            }
        }
    }
}

pub(crate) proof fn lemma_count_run(text: Seq<char>, end: int)
    requires
        0 <= end <= text.len(),
        forall|k: int| 0 <= k < end ==> in_count(#[trigger] text[k]),
        end < text.len() ==> !in_count(text[end]),
    ensures
        count_run(text) == end,
    decreases text.len(),
{
    if end > 0 {
        assert(in_count(text[0]));
        assert forall|k: int| 0 <= k < end - 1 implies in_count(
            #[trigger] text.drop_first()[k],
        ) by {
            assert(text.drop_first()[k] == text[k + 1]);
        }
        lemma_count_run(text.drop_first(), end - 1);
    }
}

/// The count inside `<total_tokens>…`, however it was written.
///
/// Stopping at the first character that is not a digit reads "15,000,000" as 15, and a
/// count the toolbar states as a fact is worse wrong than missing, so the groupings and
/// the magnitude suffix that may be written are read rather than cut off.
pub fn parse_tokens_left(text: &str) -> (tokens: Option<u64>)
    ensures
        tokens == tokens_left_in(text@),
{
    let chars = chars_of(text);
    let open = chars_of("<total_tokens>");
    let at: usize = match find(&chars, &open) {
        Some(at) => at,
        None => {
            return None;
        },
    };
    let length: usize = chars.len();
    assert(at + open@.len() <= length);
    let start: usize = skip_white_space(&chars, at + open.len());
    let ghost after = chars@.skip(start as int);
    proof {
        let first = choose|k: int|
            stands_at(text@, open@, k) && forall|l: int| 0 <= l < k ==> !stands_at(
                text@,
                open@,
                l,
            );
        assert(stands_at(text@, open@, at as int));
        assert(first == at);
        assert(after == trim_start(text@.skip(at + open@.len())));
        assert(tokens_left_in(text@) == leading_count(after));
    }
    if start == chars.len() || chars[start] < '0' || chars[start] > '9' {
        return None;
    }
    assert(after[0] == chars@[start as int]);
    let mut digits: Vec<char> = Vec::new();
    let mut end: usize = start;
    while end < chars.len() && ((chars[end] >= '0' && chars[end] <= '9') || chars[end] == ','
        || chars[end] == '_')
        invariant
            start <= end <= chars@.len(),
            after == chars@.skip(start as int),
            forall|k: int| 0 <= k < end - start ==> in_count(#[trigger] after[k]),
            digits@ == digits_in(after.take(end - start)),
        decreases chars@.len() - end,
    {
        let c = chars[end];
        proof {
            assert(after[end - start] == c);
            assert(after.take(end + 1 - start).drop_last() =~= after.take(end - start));
            assert(after.take(end + 1 - start).last() == c);
        }
        if c >= '0' && c <= '9' {
            digits.push(c);
        }
        end = end + 1;
    }
    proof {
        if end < chars@.len() {
            assert(after[end - start] == chars@[end as int]);
        }
        lemma_count_run(after, end - start);
        lemma_digits_are_decimal(after.take(end - start));
        lemma_first_digit_stays(after, end - start);
        assert(digits@.subrange(0, digits@.len() as int) =~= digits@);
    }
    proof {
        if end + 1 < chars@.len() {
            assert(after[end + 1 - start] == chars@[end + 1]);
        }
    }
    if length - end > 1 && chars[end] == '.' && chars[end + 1] >= '0' && chars[end + 1] <= '9' {
        return None;
    }
    let multiplier: u64 = if end < chars.len() {
        let suffix = chars[end];
        if suffix == 'K' || suffix == 'k' {
            1_000
        } else if suffix == 'M' || suffix == 'm' {
            1_000_000
        } else if suffix == 'G' || suffix == 'g' {
            1_000_000_000
        } else {
            1
        }
    } else {
        1
    };
    match parse_decimal(&digits, 0, digits.len()) {
        Some(value) => value.checked_mul(multiplier),
        None => {
            proof {
                let value = decimal_value(digits@);
                assert(value * multiplier >= value) by (nonlinear_arith)
                    requires
                        multiplier >= 1,
                        value >= 0,
                ;
            }
            None
        },
    }
}

proof fn lemma_first_digit_stays(text: Seq<char>, end: int)
    requires
        0 < end <= text.len(),
        is_digit(text[0]),
    ensures
        digits_in(text.take(end)).len() > 0,
    decreases end,
{
    assert(text.take(end).drop_last() =~= text.take(end - 1));
    if end == 1 {
        assert(text.take(1).last() == text[0]);
    } else {
        lemma_first_digit_stays(text, end - 1);
    }
}

impl Default for Transcript {
    fn default() -> (transcript: Self)
        ensures
            transcript.well_formed(),
            transcript@ == TranscriptView::unread(false),
    {
        Transcript::new()
    }
}

} // verus!
