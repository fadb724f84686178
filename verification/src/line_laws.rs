//! What holds of the lines that hooks, a status line and a channel write.
use crate::json::{entry_value, numeric_text, JsonView};
use crate::live_state::{event_of_wrapper, inbox_event_of, line_json, snapshot_of, ChannelInboxEventView};
use crate::text::{decimal_value, is_decimal, signed_text, trimmed};
use crate::transcript_laws::is_text_of;
use vstd::prelude::*;

verus! {

/// The text that a field holds, empty where it holds none.
pub open spec fn is_said(text: Seq<char>, part: Option<JsonView>) -> bool {
    match part {
        Some(JsonView::Text(said)) => text == said,
        _ => text.len() == 0,
    }
}

/// The time that a field holds, zero where it holds none.
pub open spec fn is_time_of(at_ms: i64, part: Option<JsonView>) -> bool {
    &&& part is None ==> at_ms == 0
    &&& part is Some && part->0.as_integer() is None ==> at_ms == 0
    &&& part is Some && part->0.as_integer() is Some ==> at_ms == part->0.as_integer()->0
}

/// The field under a key of what stands under another.
pub open spec fn below(value: JsonView, outer: Seq<char>, key: Seq<char>) -> Option<JsonView> {
    if value.get(outer) is Some {
        value.get(outer)->0.get(key)
    } else {
        None
    }
}

/// The value under a key is that of the first entry with it; only objects have any.
pub proof fn lemma_first_entry_counts(
    entries: Seq<(Seq<char>, JsonView)>,
    key: Seq<char>,
    at: int,
)
    ensures
        0 <= at < entries.len() && entries[at].0 == key && (forall|k: int|
            0 <= k < at ==> (#[trigger] entries[k]).0 != key) ==> JsonView::Object(entries).get(key)
            == Some(entries[at].1),
        (forall|k: int| 0 <= k < entries.len() ==> (#[trigger] entries[k]).0 != key)
            ==> JsonView::Object(entries).get(key) is None,
        forall|value: JsonView| value !is Object ==> #[trigger] value.get(key) is None,
    decreases entries.len(),
{
    if entries.len() > 0 {
        let rest = entries.drop_first();
        assert(forall|k: int| 0 <= k < rest.len() ==> rest[k] == entries[k + 1]);
        assert(entries[0].0 == entries[0].0);
        lemma_first_entry_counts(rest, key, at - 1);
        if at > 0 && at < entries.len() {
            assert(rest[at - 1] == entries[at]);
        }
        assert(JsonView::Object(rest).get(key) == entry_value(rest, key));
    }
}

/// A value is a text, a flag or a count only where it is written as one.
pub proof fn lemma_values_are_what_they_are_written_as(value: JsonView)
    ensures
        value.as_text() is Some <==> value is Text,
        value is Text ==> value.as_text() == Some(value->Text_0),
        value.as_bool() is Some <==> value is Bool,
        value is Bool ==> value.as_bool() == Some(value->Bool_0),
        value is Number ==> value.as_u64() == value->Number_0.unsigned,
        value !is Number ==> value.as_u64() is None,
{
}

/// An integer is a number that is one, or that has one once its fraction is cut off; or a text
/// that reads as such a number. Nothing else is.
pub proof fn lemma_what_an_integer_is(value: JsonView)
    ensures
        value is Number && value->Number_0.signed is Some ==> value.as_integer()
            == value->Number_0.signed,
        value is Number && value->Number_0.signed is None && value->Number_0.unsigned is Some
            && value->Number_0.unsigned->0 <= i64::MAX ==> value.as_integer() is Some
            && value.as_integer()->0 == value->Number_0.unsigned->0,
        value is Number && value->Number_0.signed is None && value->Number_0.unsigned is None
            && value->Number_0.double is Some ==> value.as_integer() == Some(
            value->Number_0.double->0.signed(),
        ),
        value is Text && numeric_text(value->Text_0) is Some ==> value.as_integer() == Some(
            numeric_text(value->Text_0)->0.signed(),
        ),
        value is Text && numeric_text(value->Text_0) is None ==> value.as_integer() is None,
        value !is Number && value !is Text ==> value.as_integer() is None && value.as_unsigned()
            is None,
        value is Number && value->Number_0.unsigned is Some ==> value.as_unsigned()
            == value->Number_0.unsigned,
        value is Number && value->Number_0.unsigned is None && value->Number_0.signed is Some
            && value->Number_0.signed->0 >= 0 ==> value.as_unsigned() is Some
            && value.as_unsigned()->0 == value->Number_0.signed->0,
        value is Number && value->Number_0.unsigned is None && value->Number_0.signed is None
            && value->Number_0.double is Some && value->Number_0.double->0.is_finite()
            && value->Number_0.double->0.at_least_zero() ==> value.as_unsigned() == Some(
            value->Number_0.double->0.unsigned(),
        ),
        value is Number && value->Number_0.double is Some ==> value.as_double()
            == value->Number_0.double,
        value !is Number ==> value.as_double() is None,
{
}

/// A text reads as an integer exactly where it is digits, with a sign before them at most, that
/// fit; a minus makes it negative.
pub proof fn lemma_signed_texts(digits: Seq<char>)
    requires
        is_decimal(digits),
    ensures
        decimal_value(digits) <= i64::MAX ==> signed_text(digits) is Some && signed_text(digits)->0
            == decimal_value(digits),
        decimal_value(digits) <= i64::MAX ==> signed_text(seq!['+'] + digits) == signed_text(
            digits,
        ),
        -decimal_value(digits) >= i64::MIN ==> signed_text(seq!['-'] + digits) is Some
            && signed_text(seq!['-'] + digits)->0 == -decimal_value(digits),
        decimal_value(digits) > i64::MAX ==> signed_text(digits) is None,
        -decimal_value(digits) < i64::MIN ==> signed_text(seq!['-'] + digits) is None,
{
    assert(crate::text::is_digit(digits[0]));
    assert((seq!['+'] + digits).skip(1) =~= digits);
    assert((seq!['-'] + digits).skip(1) =~= digits);
}

/// A line that is blank has no value.
pub proof fn lemma_lines_with_a_value(line: Seq<char>)
    ensures
        trimmed(line).len() == 0 ==> line_json(line) is None,
        trimmed(line).len() > 0 ==> line_json(line) == crate::json::json_of_text(trimmed(line)),
{
}

/// A line is an event exactly where what it wraps names a hook and a session. The event says
/// what stands there, when the line was written, and keeps all of it.
pub proof fn lemma_event_says_what_its_line_says(wrapper: JsonView)
    ensures
        ({
            let name = below(wrapper, "event"@, "hook_event_name"@);
            let session = below(wrapper, "event"@, "session_id"@);
            event_of_wrapper(wrapper) is Some <==> {
                &&& name is Some && name->0 is Text && name->0->Text_0.len() > 0
                &&& session is Some && session->0 is Text && session->0->Text_0.len() > 0
            }
        }),
        event_of_wrapper(wrapper) matches Some(event) ==> {
            let input = below(wrapper, "event"@, "tool_input"@);
            &&& below(wrapper, "event"@, "hook_event_name"@) == Some(JsonView::Text(event.name))
            &&& below(wrapper, "event"@, "session_id"@) == Some(JsonView::Text(event.session_id))
            &&& is_time_of(event.received_at_ms, wrapper.get("received_at_ms"@))
            &&& is_text_of(event.permission_mode, below(wrapper, "event"@, "permission_mode"@))
            &&& is_text_of(event.tool_use_id, below(wrapper, "event"@, "tool_use_id"@))
            &&& is_text_of(event.tool_name, below(wrapper, "event"@, "tool_name"@))
            &&& input == Some(JsonView::Null) ==> event.tool_input is None
            &&& input != Some(JsonView::Null) ==> event.tool_input == input
            &&& Some(event.raw) == wrapper.get("event"@)
        },
{
}

/// The status is that of an object, and says what stands under the names of its parts.
pub proof fn lemma_status_says_what_its_line_says(value: JsonView)
    ensures
        snapshot_of(value) is Some <==> value is Object,
        snapshot_of(value) matches Some(status) ==> {
            let window = |key: Seq<char>| below(value, "context_window"@, key);
            let limit = |of: Seq<char>, key: Seq<char>|
                if below(value, "rate_limits"@, of) is Some {
                    below(value, "rate_limits"@, of)->0.get(key)
                } else {
                    None
                };
            &&& is_text_of(status.model_id, below(value, "model"@, "id"@))
            &&& is_text_of(status.model_display_name, below(value, "model"@, "display_name"@))
            &&& is_unsigned_of(status.context_window_size, window("context_window_size"@))
            &&& is_double_of(status.context_used_percentage, window("used_percentage"@))
            &&& is_unsigned_of(status.total_input_tokens, window("total_input_tokens"@))
            &&& is_unsigned_of(status.total_output_tokens, window("total_output_tokens"@))
            &&& is_double_of(status.total_cost_usd, below(value, "cost"@, "total_cost_usd"@))
            &&& is_text_of(status.effort, below(value, "effort"@, "level"@))
            &&& is_double_of(
                status.five_hour_used_percentage,
                limit("five_hour"@, "used_percentage"@),
            )
            &&& is_integer_of(status.five_hour_resets_at, limit("five_hour"@, "resets_at"@))
            &&& is_double_of(
                status.seven_day_used_percentage,
                limit("seven_day"@, "used_percentage"@),
            )
            &&& is_integer_of(status.seven_day_resets_at, limit("seven_day"@, "resets_at"@))
            &&& match value.get("exceeds_200k_tokens"@) {
                Some(JsonView::Bool(exceeds)) => status.exceeds_200k_tokens == Some(exceeds),
                _ => status.exceeds_200k_tokens is None,
            }
        },
{
}

pub open spec fn is_unsigned_of(number: Option<u64>, part: Option<JsonView>) -> bool {
    if part is Some {
        number == part->0.as_unsigned()
    } else {
        number is None
    }
}

pub open spec fn is_integer_of(number: Option<i64>, part: Option<JsonView>) -> bool {
    if part is Some {
        number == part->0.as_integer()
    } else {
        number is None
    }
}

pub open spec fn is_double_of(
    number: Option<crate::double::Double>,
    part: Option<JsonView>,
) -> bool {
    if part is Some {
        number == part->0.as_double()
    } else {
        number is None
    }
}

/// Whether a line of the inbox names a kind.
pub open spec fn is_of_kind(value: JsonView, kind: Seq<char>) -> bool {
    value.get("kind"@) == Some(JsonView::Text(kind))
}

proof fn lemma_kinds_differ()
    ensures
        "ready"@.len() == 5,
        "permission_request"@.len() == 18,
        "permission_answered"@.len() == 19,
        "message_sent"@.len() == 12,
        "error"@.len() == 5,
        "closed"@.len() == 6,
        "interrupted"@.len() == 11,
        "ready"@ != "error"@,
{
    reveal_strlit("ready");
    reveal_strlit("permission_request");
    reveal_strlit("permission_answered");
    reveal_strlit("message_sent");
    reveal_strlit("error");
    reveal_strlit("closed");
    reveal_strlit("interrupted");
    assert("ready"@[0] == 'r');
    assert("error"@[0] == 'e');
}

/// An event of the inbox is of the kind that its line names, and says what the line says. A
/// line of no kind that is known is kept as it is.
pub proof fn lemma_inbox_event_says_what_its_line_says(value: JsonView, line: Seq<char>)
    ensures
        ({
            let event = inbox_event_of(value, line);
            &&& event is Ready <==> is_of_kind(value, "ready"@)
            &&& event is PermissionRequest <==> is_of_kind(value, "permission_request"@)
            &&& event is PermissionAnswered <==> is_of_kind(value, "permission_answered"@)
            &&& event is MessageSent <==> is_of_kind(value, "message_sent"@)
            &&& event is Error <==> is_of_kind(value, "error"@)
            &&& event is Closed <==> is_of_kind(value, "closed"@)
            &&& event is Interrupted <==> is_of_kind(value, "interrupted"@)
            &&& match event {
                ChannelInboxEventView::Ready { at_ms } => is_time_of(at_ms, value.get("at_ms"@)),
                ChannelInboxEventView::PermissionRequest {
                    at_ms,
                    request_id,
                    tool_name,
                    description,
                    input_preview,
                } => {
                    &&& is_time_of(at_ms, value.get("at_ms"@))
                    &&& is_said(request_id, value.get("request_id"@))
                    &&& is_said(tool_name, value.get("tool_name"@))
                    &&& is_said(description, value.get("description"@))
                    &&& is_said(input_preview, value.get("input_preview"@))
                },
                ChannelInboxEventView::PermissionAnswered { at_ms, request_id, behavior } => {
                    &&& is_time_of(at_ms, value.get("at_ms"@))
                    &&& is_said(request_id, value.get("request_id"@))
                    &&& is_said(behavior, value.get("behavior"@))
                },
                ChannelInboxEventView::MessageSent { at_ms, outbox_file, content_chars } => {
                    let chars = value.get("content_chars"@);
                    &&& is_time_of(at_ms, value.get("at_ms"@))
                    &&& is_said(outbox_file, value.get("outbox_file"@))
                    &&& is_unsigned_of(Some(content_chars), chars) || content_chars == 0
                        && is_unsigned_of(None, chars)
                },
                ChannelInboxEventView::Error { at_ms, outbox_file, reason } => {
                    let file = value.get("outbox_file"@);
                    let named = file is Some && file->0 is Text && file->0->Text_0.len() > 0;
                    &&& is_time_of(at_ms, value.get("at_ms"@))
                    &&& named ==> outbox_file == Some(file->0->Text_0)
                    &&& !named ==> outbox_file is None
                    &&& is_said(reason, value.get("reason"@))
                },
                ChannelInboxEventView::Closed { at_ms, reason } => {
                    &&& is_time_of(at_ms, value.get("at_ms"@))
                    &&& is_said(reason, value.get("reason"@))
                },
                ChannelInboxEventView::Interrupted { at_ms, claude_pid, reason } => {
                    let pid = value.get("claude_pid"@);
                    let fits = pid is Some && pid->0.as_unsigned() is Some
                        && pid->0.as_unsigned()->0 <= u32::MAX;
                    &&& is_time_of(at_ms, value.get("at_ms"@))
                    &&& fits ==> claude_pid == pid->0.as_unsigned()->0
                    &&& !fits ==> claude_pid == 0
                    &&& is_said(reason, value.get("reason"@))
                },
                ChannelInboxEventView::Unknown { raw } => raw == line,
            }
        }),
{
    lemma_kinds_differ();
}

} // verus!
