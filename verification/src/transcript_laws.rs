//! What holds of a transcript, whatever records it is told.
use crate::json::JsonView;
use crate::text::{decimal_value, stands_at, trim_start, trimmed};
use crate::transcript::{
    boundaries_of, digits_in, leading_count, lemma_count_run, lemma_place_of, lemma_trail_is_never_cut_short,
    place_of, queue_after, record_of, text_position, tokens_left_in, TranscriptRecordView, TranscriptView,
};
use vstd::prelude::*;

verus! {

/// What a value holds as a field: under its name, or at its place in a list.
pub open spec fn part(value: JsonView, key: Seq<char>, position: int) -> Option<JsonView> {
    if value is Object {
        value.get(key)
    } else if value is List && 0 <= position < value->List_0.len() {
        Some(value->List_0[position])
    } else {
        None
    }
}

/// Whether a field says nothing.
pub open spec fn is_nothing(part: Option<JsonView>) -> bool {
    part is None || part == Some(JsonView::Null)
}

/// Whether a field says nothing or a text.
pub open spec fn may_be_text(part: Option<JsonView>) -> bool {
    is_nothing(part) || part->0 is Text
}

pub open spec fn may_be_flag(part: Option<JsonView>) -> bool {
    is_nothing(part) || part->0 is Bool
}

pub open spec fn may_be_count(part: Option<JsonView>) -> bool {
    is_nothing(part) || part->0 is Number && part->0->Number_0.unsigned is Some
}

/// Whether a text is the one that a field says.
pub open spec fn is_text_of(text: Option<Seq<char>>, part: Option<JsonView>) -> bool {
    match part {
        Some(JsonView::Text(said)) => text == Some(said),
        _ => text is None,
    }
}

pub open spec fn is_count_of(count: Option<u64>, part: Option<JsonView>) -> bool {
    match part {
        Some(JsonView::Number(number)) => count == number.unsigned,
        _ => count is None,
    }
}

pub open spec fn may_be_metadata(part: Option<JsonView>) -> bool {
    is_nothing(part) || {
        let value = part->0;
        &&& value is Object || value is List && value->List_0.len() <= 3
        &&& may_be_text(self::part(value, "trigger"@, 0))
        &&& may_be_count(self::part(value, "preTokens"@, 1))
        &&& may_be_count(self::part(value, "postTokens"@, 2))
    }
}

/// A value is a record exactly where it says its type and what else it says is of the kind that
/// belongs there. The record then says what the value says, and keeps all of it.
pub proof fn lemma_record_says_what_its_value_says(value: JsonView)
    ensures
        record_of(value) is Some <==> {
            &&& value is Object || value is List && value->List_0.len() <= 8
            &&& part(value, "type"@, 4) is Some && part(value, "type"@, 4)->0 is Text
            &&& may_be_text(part(value, "uuid"@, 0))
            &&& may_be_text(part(value, "parentUuid"@, 1))
            &&& may_be_text(part(value, "logicalParentUuid"@, 2))
            &&& may_be_flag(part(value, "isSidechain"@, 3))
            &&& may_be_text(part(value, "subtype"@, 5))
            &&& may_be_flag(part(value, "isCompactSummary"@, 6))
            &&& may_be_metadata(part(value, "compactMetadata"@, 7))
        },
        record_of(value) matches Some(record) ==> {
            let metadata = part(value, "compactMetadata"@, 7);
            &&& Some(JsonView::Text(record.record_type)) == part(value, "type"@, 4)
            &&& is_text_of(record.uuid, part(value, "uuid"@, 0))
            &&& is_text_of(record.parent_uuid, part(value, "parentUuid"@, 1))
            &&& is_text_of(record.logical_parent_uuid, part(value, "logicalParentUuid"@, 2))
            &&& record.is_sidechain <==> part(value, "isSidechain"@, 3) == Some(
                JsonView::Bool(true),
            )
            &&& is_text_of(record.subtype, part(value, "subtype"@, 5))
            &&& record.is_compact_summary <==> part(value, "isCompactSummary"@, 6) == Some(
                JsonView::Bool(true),
            )
            &&& record.compact_metadata is None <==> is_nothing(metadata)
            &&& record.compact_metadata matches Some(said) ==> {
                let trigger = part(metadata->0, "trigger"@, 0);
                &&& is_nothing(trigger) ==> said.trigger.len() == 0
                &&& !is_nothing(trigger) ==> Some(JsonView::Text(said.trigger)) == trigger
                &&& is_count_of(said.pre_tokens, part(metadata->0, "preTokens"@, 1))
                &&& is_count_of(said.post_tokens, part(metadata->0, "postTokens"@, 2))
            }
            &&& record.raw == value
        },
{
}

/// A record that has the uuid of an earlier one takes its place, and the uuid is reported;
/// any other goes behind all. No other record moves or changes.
pub proof fn lemma_record_takes_its_place(
    t: TranscriptView,
    record: TranscriptRecordView,
    at: int,
)
    ensures
        ({
            let after = t.with_record(record);
            let is_first = 0 <= at < t.records.len() && record.uuid is Some && t.records[at].uuid
                == record.uuid && forall|k: int|
                0 <= k < at ==> (#[trigger] t.records[k]).uuid != record.uuid;
            let is_new = record.uuid is None || forall|k: int|
                0 <= k < t.records.len() ==> (#[trigger] t.records[k]).uuid != record.uuid;
            &&& is_first ==> {
                &&& after.records.len() == t.records.len()
                &&& after.records[at] == record
                &&& forall|k: int|
                    0 <= k < t.records.len() && k != at ==> #[trigger] after.records[k]
                        == t.records[k]
                &&& after.overwritten == t.overwritten + seq![record.uuid->0]
            }
            &&& is_new ==> {
                &&& after.records == t.records + seq![record]
                &&& after.overwritten == t.overwritten
            }
            &&& after.reads_sidechain == t.reads_sidechain
            &&& record.uuid is Some && (t.reads_sidechain || !record.is_sidechain) ==> after.leaf
                == record.uuid
            &&& record.uuid is None || !t.reads_sidechain && record.is_sidechain ==> after.leaf
                == t.leaf
        }),
{
    if let Some(uuid) = record.uuid {
        lemma_place_of(t.records, uuid, 0);
        let place = place_of(t.records, uuid, 0);
        if 0 <= at < t.records.len() && t.records[at].uuid == record.uuid && place < at {
            assert(t.records[place].uuid == record.uuid);
        }
        if at < place && 0 <= at {
            assert(t.records[at].uuid != record.uuid);
        }
    }
    assert(t.records.push(record) =~= t.records + seq![record]);
    if record.uuid is Some {
        assert(t.overwritten.push(record.uuid->0) =~= t.overwritten + seq![record.uuid->0]);
    }
}

/// Whether a record is a line of the queue log with an operation.
pub open spec fn does(record: TranscriptRecordView, operation: Seq<char>) -> bool {
    record.record_type == "queue-operation"@ && record.raw.get("operation"@) == Some(
        JsonView::Text(operation),
    )
}

/// Whether a line of the queue log is on a message.
pub open spec fn is_on(record: TranscriptRecordView, message: Seq<char>) -> bool {
    &&& record.raw.get("content"@) is Some
    &&& record.raw.get("content"@)->0 is Text
    &&& trimmed(record.raw.get("content"@)->0->Text_0) == message
    &&& message.len() > 0
}

proof fn lemma_operations_differ()
    ensures
        "enqueue"@ != "remove"@,
        "enqueue"@ != "dequeue"@,
        "enqueue"@ != "popAll"@,
        "remove"@ != "dequeue"@,
        "remove"@ != "popAll"@,
        "dequeue"@ != "popAll"@,
{
    reveal_strlit("enqueue");
    reveal_strlit("remove");
    reveal_strlit("dequeue");
    reveal_strlit("popAll");
    assert("enqueue"@[0] == 'e');
    assert("remove"@[0] == 'r');
    assert("dequeue"@[0] == 'd');
    assert("popAll"@[0] == 'p');
}

proof fn lemma_position(texts: Seq<Seq<char>>, text: Seq<char>, from: int, at: int)
    requires
        0 <= from <= at <= texts.len(),
        at < texts.len() ==> texts[at] == text,
        forall|k: int| from <= k < at ==> #[trigger] texts[k] != text,
    ensures
        text_position(texts, text, from) == at,
    decreases texts.len() - from,
{
    if from < at {
        assert(texts[from] != text);
        lemma_position(texts, text, from + 1, at);
    }
}

/// A message that is queued waits behind the others, without the white space around it. One
/// that is dequeued is the one that waited longest; one that is removed is the first of its
/// text; and to pop all leaves none.
pub proof fn lemma_how_messages_wait(
    queued: Seq<Seq<char>>,
    record: TranscriptRecordView,
    message: Seq<char>,
    at: int,
)
    ensures
        does(record, "enqueue"@) && is_on(record, message) ==> queue_after(queued, record)
            == queued + seq![message],
        does(record, "dequeue"@) && queued.len() > 0 ==> queue_after(queued, record)
            == queued.skip(1),
        does(record, "dequeue"@) && queued.len() == 0 ==> queue_after(queued, record).len() == 0,
        does(record, "popAll"@) ==> queue_after(queued, record).len() == 0,
        does(record, "remove"@) && is_on(record, message) && 0 <= at < queued.len() && queued[at]
            == message && (forall|k: int| 0 <= k < at ==> #[trigger] queued[k] != message)
            ==> queue_after(queued, record) == queued.take(at) + queued.skip(at + 1),
        does(record, "remove"@) && is_on(record, message) && (forall|k: int|
            0 <= k < queued.len() ==> #[trigger] queued[k] != message) ==> queue_after(
            queued,
            record,
        ) == queued,
{
    lemma_operations_differ();
    assert(queued.push(message) =~= queued + seq![message]);
    if queued.len() > 0 {
        assert(queued.drop_first() =~= queued.skip(1));
    }
    if 0 <= at < queued.len() && queued[at] == message && (forall|k: int|
        0 <= k < at ==> #[trigger] queued[k] != message) {
        lemma_position(queued, message, 0, at);
        assert(queued.remove(at) =~= queued.take(at) + queued.skip(at + 1));
    }
    if forall|k: int| 0 <= k < queued.len() ==> #[trigger] queued[k] != message {
        lemma_position(queued, message, 0, queued.len() as int);
    }
}

/// A record that is no line of the queue log leaves the queue, as does one with another
/// operation, and one that queues or removes no message.
pub proof fn lemma_what_leaves_the_queue(queued: Seq<Seq<char>>, record: TranscriptRecordView)
    ensures
        !does(record, "enqueue"@) && !does(record, "remove"@) && !does(record, "dequeue"@)
            && !does(record, "popAll"@) ==> queue_after(queued, record) == queued,
        (does(record, "enqueue"@) || does(record, "remove"@)) && (forall|message: Seq<char>|
            !#[trigger] is_on(record, message)) ==> queue_after(queued, record) == queued,
{
    lemma_operations_differ();
    if let Some(JsonView::Text(content)) = record.raw.get("content"@) {
        assert(is_on(record, trimmed(content)) <==> trimmed(content).len() > 0);
    }
}

/// The queue of a transcript is what the queue log says.
pub proof fn lemma_queue_follows_its_log(t: TranscriptView, record: TranscriptRecordView)
    ensures
        t.with_record(record).queued == queue_after(t.queued, record),
        TranscriptView::unread(t.reads_sidechain).queued.len() == 0,
        TranscriptView::unread(t.reads_sidechain).records.len() == 0,
        TranscriptView::unread(t.reads_sidechain).leaf is None,
        TranscriptView::unread(t.reads_sidechain).overwritten.len() == 0,
        TranscriptView::unread(t.reads_sidechain).reads_sidechain == t.reads_sidechain,
        t.with_records(seq![record]) == t.with_record(record),
        t.with_records(Seq::empty()) == t,
{
    assert(seq![record].drop_last() =~= Seq::empty());
    assert(t.with_records(seq![record].drop_last()) == t);
}

/// Whether what a transcript notes without a uuid stands where it was noted.
pub open spec fn is_noted(t: TranscriptView, at: Option<usize>) -> bool {
    at is Some ==> at->0 < t.records.len() && t.records[at->0 as int].uuid is None
}

/// The records that a transcript notes are those without a uuid that it was told.
pub open spec fn notes_stand(t: TranscriptView) -> bool {
    &&& is_noted(t, t.permission_mode_at)
    &&& is_noted(t, t.ai_title_at)
    &&& is_noted(t, t.bridge_session_at)
}

proof fn lemma_place(t: TranscriptView, record: TranscriptRecordView)
    ensures
        0 <= t.place(record) <= t.records.len(),
        t.place(record) < t.records.len() ==> t.records[t.place(record)].uuid is Some,
{
    if let Some(uuid) = record.uuid {
        lemma_place_of(t.records, uuid, 0);
    }
}

proof fn lemma_note_types_differ()
    ensures
        "permission-mode"@ != "ai-title"@,
        "permission-mode"@ != "bridge-session"@,
        "ai-title"@ != "bridge-session"@,
{
    reveal_strlit("permission-mode");
    reveal_strlit("ai-title");
    reveal_strlit("bridge-session");
    assert("permission-mode"@[0] == 'p');
    assert("ai-title"@[0] == 'a');
    assert("bridge-session"@[0] == 'b');
}

/// The permission mode, the title and the bridge session of a transcript are those that the
/// newest record of their kind without a uuid says; every other record leaves them as they are.
pub proof fn lemma_newest_note_counts(t: TranscriptView, record: TranscriptRecordView)
    requires
        notes_stand(t),
        t.records.len() < usize::MAX,
    ensures
        ({
            let after = t.with_record(record);
            &&& notes_stand(after)
            &&& if record.uuid is None && record.record_type == "permission-mode"@ {
                is_text_of(after.permission_mode(), record.raw.get("permissionMode"@))
            } else {
                after.permission_mode() == t.permission_mode()
            }
            &&& if record.uuid is None && record.record_type == "ai-title"@ {
                is_text_of(after.ai_title(), record.raw.get("aiTitle"@))
            } else {
                after.ai_title() == t.ai_title()
            }
            &&& if record.uuid is None && record.record_type == "bridge-session"@ {
                is_text_of(after.bridge_session_id(), record.raw.get("bridgeSessionId"@))
            } else {
                after.bridge_session_id() == t.bridge_session_id()
            }
        }),
        ({
            let unread = TranscriptView::unread(t.reads_sidechain);
            &&& notes_stand(unread)
            &&& unread.permission_mode() is None && unread.ai_title() is None
            &&& unread.bridge_session_id() is None && unread.tokens_left() is None
            &&& unread.auto_mode() is None && unread.auto_mode_steer() is None
        }),
{
    lemma_place(t, record);
    lemma_note_types_differ();
}

/// Whether a record carries an attachment of a kind.
pub open spec fn carries(record: TranscriptRecordView, kind: Seq<char>) -> bool {
    &&& record.record_type == "attachment"@
    &&& record.raw.get("attachment"@) is Some
    &&& record.raw.get("attachment"@)->0.get("type"@) == Some(JsonView::Text(kind))
}

/// Whether a value says that a flag is set.
pub open spec fn is_true(value: JsonView, key: Seq<char>) -> bool {
    value.get(key) == Some(JsonView::Bool(true))
}

/// The flags of the auto mode and what steers it are those of the newest attachment on it, and
/// the tokens that are left those of the newest reminder. A record that carries another
/// attachment or none, and is new, leaves them as they are.
pub proof fn lemma_newest_attachment_counts(t: TranscriptView, record: TranscriptRecordView)
    requires
        t.records.len() < usize::MAX,
    ensures
        ({
            let after = t.with_record(record);
            let attachment = record.raw.get("attachment"@)->0;
            let is_new = record.uuid is None || forall|k: int|
                0 <= k < t.records.len() ==> (#[trigger] t.records[k]).uuid != record.uuid;
            let at = |noted: Option<usize>| noted is None || noted->0 < t.records.len();
            &&& carries(record, "auto_mode"@) ==> {
                &&& after.auto_mode() is Some
                &&& after.auto_mode()->0.bash_first <==> is_true(attachment, "bashFirst"@)
                &&& after.auto_mode()->0.steer_only <==> is_true(attachment, "steerOnly"@)
                &&& after.auto_mode()->0.bypass <==> is_true(attachment, "bypass"@)
                &&& match attachment.get("bashFirstSteer"@) {
                    Some(JsonView::Text(steer)) => if trimmed(steer).len() > 0 {
                        after.auto_mode_steer() == Some(trimmed(steer))
                    } else {
                        after.auto_mode_steer() is None
                    },
                    _ => after.auto_mode_steer() is None,
                }
            }
            &&& carries(record, "total_tokens_reminder"@) ==> match attachment.get("text"@) {
                Some(JsonView::Text(text)) => after.tokens_left() == tokens_left_in(text),
                _ => after.tokens_left() is None,
            }
            &&& is_new && !carries(record, "auto_mode"@) && at(t.auto_mode_at) ==> {
                &&& after.auto_mode() == t.auto_mode()
                &&& after.auto_mode_steer() == t.auto_mode_steer()
            }
            &&& is_new && !carries(record, "total_tokens_reminder"@) && at(t.tokens_left_at)
                ==> after.tokens_left() == t.tokens_left()
        }),
{
    lemma_place(t, record);
    lemma_record_takes_its_place(t, record, 0);
    if let Some(uuid) = record.uuid {
        lemma_place_of(t.records, uuid, 0);
    }
}

/// What a record goes back to: its parent; for the mark of a compaction, where the way leads
/// across it, the record from before it.
pub open spec fn goes_back_to(record: TranscriptRecordView, across: bool) -> Option<Seq<char>> {
    if across && record.subtype == Some("compact_boundary"@) && record.logical_parent_uuid
        is Some {
        record.logical_parent_uuid
    } else {
        record.parent_uuid
    }
}

/// Whether each step of a way leads to the first record that the one before goes back to, and
/// the first step to the first record of a uuid.
pub open spec fn is_way_back(
    t: TranscriptView,
    from: Option<Seq<char>>,
    way: Seq<int>,
    across: bool,
) -> bool {
    &&& way.no_duplicates()
    &&& forall|k: int|
        0 <= k < way.len() ==> {
            let at = #[trigger] way[k];
            &&& 0 <= at < t.records.len()
            &&& t.records[at].uuid is Some
            &&& t.records[at].uuid == cursor_at(t, from, way, k, across)
            &&& forall|earlier: int|
                0 <= earlier < at ==> (#[trigger] t.records[earlier]).uuid != t.records[at].uuid
        }
}

/// The uuid that a way back looks for at its step `k`.
pub open spec fn cursor_at(
    t: TranscriptView,
    from: Option<Seq<char>>,
    way: Seq<int>,
    k: int,
    across: bool,
) -> Option<Seq<char>> {
    if k <= 0 {
        from
    } else {
        goes_back_to(t.records[way[k - 1]], across)
    }
}

/// Whether a way back has come to its end: there is nothing to go back to, it is not there, or
/// the way has been there.
pub open spec fn is_at_its_end(
    t: TranscriptView,
    from: Option<Seq<char>>,
    way: Seq<int>,
    across: bool,
) -> bool {
    let cursor = cursor_at(t, from, way, way.len() as int, across);
    ||| cursor is None
    ||| forall|k: int| 0 <= k < t.records.len() ==> (#[trigger] t.records[k]).uuid != cursor
    ||| exists|k: int| 0 <= k < way.len() && t.records[#[trigger] way[k]].uuid == cursor
}

proof fn lemma_way(
    t: TranscriptView,
    from: Option<Seq<char>>,
    met: Seq<int>,
    across: bool,
)
    requires
        is_way_back(t, from, met, across),
    ensures
        ({
            let way = t.trail(cursor_at(t, from, met, met.len() as int, across), met, across);
            is_way_back(t, from, way, across) && is_at_its_end(t, from, way, across)
        }),
    decreases t.records.len() - met.len(),
{
    let cursor = cursor_at(t, from, met, met.len() as int, across);
    if let Some(uuid) = cursor {
        let place = place_of(t.records, uuid, 0);
        lemma_place_of(t.records, uuid, 0);
        if place < t.records.len() {
            if met.contains(place) {
                let k = choose|k: int| 0 <= k < met.len() && met[k] == place;
                assert(t.records[met[k]].uuid == cursor);
            } else {
                assert forall|k: int| 0 <= k < met.len() implies 0 <= #[trigger] met[k]
                    < t.records.len() by {}
                lemma_trail_is_never_cut_short(t, met, place);
                let next = met.push(place);
                assert(is_way_back(t, from, next, across)) by {
                    assert forall|k: int| 0 <= k < next.len() implies {
                        let at = #[trigger] next[k];
                        &&& 0 <= at < t.records.len()
                        &&& t.records[at].uuid is Some
                        &&& t.records[at].uuid == cursor_at(t, from, next, k, across)
                        &&& forall|earlier: int|
                            0 <= earlier < at ==> (#[trigger] t.records[earlier]).uuid
                                != t.records[at].uuid
                    } by {
                        if k < met.len() {
                            assert(next[k] == met[k]);
                            assert(cursor_at(t, from, next, k, across) == cursor_at(
                                t,
                                from,
                                met,
                                k,
                                across,
                            ));
                        } else {
                            assert(cursor_at(t, from, next, k, across) == cursor);
                        }
                    }
                }
                lemma_way(t, from, next, across);
                assert(cursor_at(t, from, next, next.len() as int, across)
                    == TranscriptView::parent(t.records[place], across));
            }
        }
    }
}

/// A conversation is read back from its leaf, each record to the one it goes back to, until
/// there is none, or it is not there, or it was met; across a compaction where that is asked.
pub proof fn lemma_conversation_goes_back_from_its_leaf(t: TranscriptView, across: bool)
    ensures
        is_way_back(t, t.leaf, t.trail(t.leaf, Seq::empty(), across), across),
        is_at_its_end(t, t.leaf, t.trail(t.leaf, Seq::empty(), across), across),
        t.path(across) == t.shown(t.trail(t.leaf, Seq::empty(), across)),
{
    lemma_way(t, t.leaf, Seq::empty(), across);
}

/// Of a way back the records that are not of a sidechain are shown, or all where a sidechain is
/// read, the last that was met first.
pub proof fn lemma_records_are_shown_oldest_first(
    t: TranscriptView,
    newer: Seq<int>,
    older: Seq<int>,
    at: int,
)
    ensures
        t.shown(newer + older) == t.shown(older) + t.shown(newer),
        t.reads_sidechain || !t.records[at].is_sidechain ==> t.shown(seq![at]) == seq![
            t.records[at],
        ],
        !t.reads_sidechain && t.records[at].is_sidechain ==> t.shown(seq![at]).len() == 0,
    decreases older.len(),
{
    if older.len() > 0 {
        lemma_records_are_shown_oldest_first(t, newer, older.drop_last(), at);
        assert((newer + older).drop_last() =~= newer + older.drop_last());
        assert(t.shown(newer + older) =~= t.shown(older) + t.shown(newer));
    } else {
        assert(newer + older =~= newer);
        assert(t.shown(older) + t.shown(newer) =~= t.shown(newer));
    }
    assert(seq![at].drop_last() =~= Seq::empty());
    assert(t.shown(seq![at].drop_last()) =~= Seq::empty());
    if t.shows(t.records[at]) {
        assert(t.shown(seq![at]) =~= seq![t.records[at]]);
    }
}

/// The marks of the compactions of two runs of records are those of the first and behind them
/// those of the second; of one record it is the record itself where it is such a mark.
pub proof fn lemma_compactions_are_found(
    first: Seq<TranscriptRecordView>,
    second: Seq<TranscriptRecordView>,
    record: TranscriptRecordView,
)
    ensures
        boundaries_of(first + second) == boundaries_of(first) + boundaries_of(second),
        record.subtype == Some("compact_boundary"@) ==> boundaries_of(seq![record]) == seq![record],
        record.subtype != Some("compact_boundary"@) ==> boundaries_of(seq![record]).len() == 0,
    decreases second.len(),
{
    if second.len() > 0 {
        lemma_compactions_are_found(first, second.drop_last(), record);
        assert((first + second).drop_last() =~= first + second.drop_last());
        assert(boundaries_of(first + second) =~= boundaries_of(first) + boundaries_of(second));
    } else {
        assert(first + second =~= first);
        assert(boundaries_of(first) + boundaries_of(second) =~= boundaries_of(first));
    }
    assert(seq![record].drop_last() =~= Seq::empty());
    assert(boundaries_of(seq![record].drop_last()) =~= Seq::empty());
    if record.subtype == Some("compact_boundary"@) {
        assert(boundaries_of(seq![record]) =~= seq![record]);
    }
}

/// Whether a character may stand in a count: a digit or a mark that groups digits.
pub open spec fn stands_in_a_count(c: char) -> bool {
    '0' <= c <= '9' || c == ',' || c == '_'
}

/// What the character behind a count makes of it.
pub open spec fn times(text: Seq<char>, end: int) -> int {
    if end >= text.len() {
        1
    } else if text[end] == 'K' || text[end] == 'k' {
        1_000
    } else if text[end] == 'M' || text[end] == 'm' {
        1_000_000
    } else if text[end] == 'G' || text[end] == 'g' {
        1_000_000_000
    } else {
        1
    }
}

/// A count is the value of its digits, whatever groups them, a thousand times, a million times
/// or a billion times over where the letter behind it says so. There is none where the text does
/// not begin with a digit, where decimals follow, and where it is too large.
pub proof fn lemma_count_is_read_whole(text: Seq<char>, end: int)
    requires
        0 <= end <= text.len(),
        forall|k: int| 0 <= k < end ==> stands_in_a_count(#[trigger] text[k]),
        end < text.len() ==> !stands_in_a_count(text[end]),
    ensures
        ({
            let value = decimal_value(digits_in(text.take(end))) * times(text, end);
            let begins = text.len() > 0 && '0' <= text[0] <= '9';
            let decimals = end + 1 < text.len() && text[end] == '.' && '0' <= text[end + 1] <= '9';
            if begins && !decimals && value <= u64::MAX {
                leading_count(text) is Some && leading_count(text)->0 == value
            } else {
                leading_count(text) is None
            }
        }),
{
    lemma_count_run(text, end);
    assert(decimal_value(digits_in(text.take(end))) * times(text, end) >= 0) by (nonlinear_arith)
        requires
            decimal_value(digits_in(text.take(end))) >= 0,
            times(text, end) >= 0,
    ;
}

/// The digits of two texts are those of the first and behind them those of the second; of one
/// character it is the character where it is a digit. One digit more makes a value ten times
/// what it was, and adds itself.
pub proof fn lemma_digits_make_a_value(first: Seq<char>, second: Seq<char>, c: char)
    ensures
        digits_in(first + second) == digits_in(first) + digits_in(second),
        '0' <= c <= '9' ==> digits_in(seq![c]) == seq![c],
        !('0' <= c <= '9') ==> digits_in(seq![c]).len() == 0,
        '0' <= c <= '9' ==> decimal_value(first.push(c)) == 10 * decimal_value(first) + (c as int
            - 48),
        decimal_value(Seq::empty()) == 0,
    decreases second.len(),
{
    if second.len() > 0 {
        lemma_digits_make_a_value(first, second.drop_last(), c);
        assert((first + second).drop_last() =~= first + second.drop_last());
        assert(digits_in(first + second) =~= digits_in(first) + digits_in(second));
    } else {
        assert(first + second =~= first);
        assert(digits_in(first) + digits_in(second) =~= digits_in(first));
    }
    assert(seq![c].drop_last() =~= Seq::empty());
    assert(digits_in(seq![c].drop_last()) =~= Seq::empty());
    if '0' <= c <= '9' {
        assert(digits_in(seq![c]) =~= seq![c]);
        assert(first.push(c).drop_last() =~= first);
    }
}

/// The tokens that are left are the count behind the first mark of them, white space aside;
/// there is none without a mark.
pub proof fn lemma_tokens_left_stand_behind_their_mark(text: Seq<char>, at: int)
    ensures
        stands_at(text, "<total_tokens>"@, at) && (forall|k: int|
            0 <= k < at ==> !#[trigger] stands_at(text, "<total_tokens>"@, k)) ==> tokens_left_in(
            text,
        ) == leading_count(trim_start(text.skip(at + 14))),
        (forall|k: int| !#[trigger] stands_at(text, "<total_tokens>"@, k)) ==> tokens_left_in(text)
            is None,
{
    let open = "<total_tokens>"@;
    reveal_strlit("<total_tokens>");
    assert(open.len() == 14);
    if stands_at(text, open, at) && (forall|k: int|
        0 <= k < at ==> !#[trigger] stands_at(text, open, k)) {
        let first = choose|at: int|
            stands_at(text, open, at) && forall|k: int| 0 <= k < at ==> !stands_at(text, open, k);
        assert(stands_at(text, open, first));
        assert(first == at);
    }
}

} // verus!
