//! What holds of a session's live state, event by event and record by record.
use crate::json::JsonView;
use crate::live_notes::{
    block_lines, is_interrupt, message_blocks, record_millis, visible_text, with_results, with_timed_record,
    with_transcript,
};
use crate::live_state::{rfc3339_millis, HookEventView, LiveStateView, RunningToolView, Turn};
use crate::text::trimmed;
use crate::transcript::TranscriptRecordView;
use vstd::prelude::*;

verus! {

/// Whether a tool call of this id runs.
pub open spec fn runs(state: LiveStateView, id: Seq<char>) -> bool {
    exists|k: int|
        0 <= k < state.running_tools.len() && (#[trigger] state.running_tools[k]).tool_use_id == id
}

/// Whether a tool call of this id runs, or a permission or a question waits under it.
pub open spec fn is_open(state: LiveStateView, id: Seq<char>) -> bool {
    ||| runs(state, id)
    ||| state.pending_permission is Some && state.pending_permission->0.tool_use_id == id
    ||| state.pending_question is Some && state.pending_question->0.tool_use_id == id
}

/// Whether what is open under an id is the same in two states, and the tools of that id
/// stand in both.
pub open spec fn same_under(before: LiveStateView, after: LiveStateView, id: Seq<char>) -> bool {
    &&& forall|tool: RunningToolView|
        tool.tool_use_id == id ==> (#[trigger] before.running_tools.contains(tool)
            <==> after.running_tools.contains(tool))
    &&& before.pending_permission is Some && before.pending_permission->0.tool_use_id == id
        ==> after.pending_permission == before.pending_permission
    &&& before.pending_question is Some && before.pending_question->0.tool_use_id == id
        ==> after.pending_question == before.pending_question
    &&& after.pending_permission is Some && after.pending_permission->0.tool_use_id == id
        ==> after.pending_permission == before.pending_permission
    &&& after.pending_question is Some && after.pending_question->0.tool_use_id == id
        ==> after.pending_question == before.pending_question
}

/// Whether a block of a message is the result of the tool call with this id.
pub open spec fn is_result_of(block: JsonView, id: Seq<char>) -> bool {
    block.get("type"@) == Some(JsonView::Text("tool_result"@)) && block.get("tool_use_id"@) == Some(
        JsonView::Text(id),
    )
}

proof fn lemma_ending_one_tool(state: LiveStateView, ended: Seq<char>, id: Seq<char>)
    ensures
        ended == id ==> !is_open(state.with_result(ended), id),
        ended != id ==> same_under(state, state.with_result(ended), id),
        !is_open(state, id) ==> !is_open(state.with_result(ended), id),
        state.with_result(ended).turn == state.turn,
        state.with_result(ended).live_message == state.live_message,
        state.with_result(ended).permission_mode == state.permission_mode,
        state.with_result(ended).compacting == state.compacting,
        state.with_result(ended).last_notification == state.last_notification,
        state.with_result(ended).last_event_at_ms == state.last_event_at_ms,
        state.with_result(ended).session_ended == state.session_ended,
{
    lemma_tools_left(state.running_tools, ended);
    let after = state.with_result(ended);
    assert forall|tool: RunningToolView| tool.tool_use_id != ended implies (
    #[trigger] state.running_tools.contains(tool) <==> after.running_tools.contains(tool)) by {}
    if runs(after, id) {
        let k = choose|k: int|
            0 <= k < after.running_tools.len() && (#[trigger] after.running_tools[k]).tool_use_id
                == id;
        assert(after.running_tools.contains(after.running_tools[k]));
        let at = choose|at: int|
            0 <= at < state.running_tools.len() && state.running_tools[at]
                == after.running_tools[k];
        assert(state.running_tools[at].tool_use_id == id);
    }
}

proof fn lemma_tools_left(tools: Seq<RunningToolView>, id: Seq<char>)
    ensures
        forall|tool: RunningToolView| #[trigger]
            crate::live_state::without_tool(tools, id).contains(tool) <==> tools.contains(tool)
                && tool.tool_use_id != id,
    decreases tools.len(),
{
    let left = crate::live_state::without_tool(tools, id);
    if tools.len() > 0 {
        let front = tools.drop_last();
        let kept = crate::live_state::without_tool(front, id);
        lemma_tools_left(front, id);
        assert(tools =~= front.push(tools.last()));
        assert forall|tool: RunningToolView| #[trigger] left.contains(tool) <==> tools.contains(tool)
            && tool.tool_use_id != id by {
            assert(tools.contains(tool) <==> front.contains(tool) || tool == tools.last()) by {
                if front.contains(tool) {
                    let k = choose|k: int| 0 <= k < front.len() && front[k] == tool;
                    assert(tools[k] == tool);
                }
                if tool == tools.last() {
                    assert(tools[tools.len() - 1] == tool);
                }
                if tools.contains(tool) {
                    let k = choose|k: int| 0 <= k < tools.len() && tools[k] == tool;
                    if k < front.len() {
                        assert(front[k] == tool);
                    }
                }
            }
            if tools.last().tool_use_id != id {
                assert(left =~= kept.push(tools.last()));
                assert(left.contains(tool) <==> kept.contains(tool) || tool == tools.last()) by {
                    if kept.contains(tool) {
                        let k = choose|k: int| 0 <= k < kept.len() && kept[k] == tool;
                        assert(left[k] == tool);
                    }
                    if tool == tools.last() {
                        assert(left[left.len() - 1] == tool);
                    }
                    if left.contains(tool) {
                        let k = choose|k: int| 0 <= k < left.len() && left[k] == tool;
                        if k < kept.len() {
                            assert(kept[k] == tool);
                        }
                    }
                }
            }
        }
    }
}

proof fn lemma_results(state: LiveStateView, blocks: Seq<JsonView>, id: Seq<char>)
    ensures
        (exists|k: int| 0 <= k < blocks.len() && is_result_of(#[trigger] blocks[k], id))
            ==> !is_open(with_results(state, blocks), id),
        !(exists|k: int| 0 <= k < blocks.len() && is_result_of(#[trigger] blocks[k], id))
            ==> same_under(state, with_results(state, blocks), id),
        !is_open(state, id) ==> !is_open(with_results(state, blocks), id),
        with_results(state, blocks).turn == state.turn,
        with_results(state, blocks).live_message == state.live_message,
        with_results(state, blocks).permission_mode == state.permission_mode,
        with_results(state, blocks).compacting == state.compacting,
        with_results(state, blocks).last_notification == state.last_notification,
        with_results(state, blocks).last_event_at_ms == state.last_event_at_ms,
        with_results(state, blocks).session_ended == state.session_ended,
    decreases blocks.len(),
{
    if blocks.len() > 0 {
        let front = blocks.drop_last();
        let block = blocks.last();
        let earlier = with_results(state, front);
        lemma_results(state, front, id);
        match block.get("tool_use_id"@) {
            Some(JsonView::Text(ended)) => {
                lemma_ending_one_tool(earlier, ended, id);
            },
            _ => {},
        }
        if exists|k: int| 0 <= k < front.len() && is_result_of(#[trigger] front[k], id) {
            let k = choose|k: int| 0 <= k < front.len() && is_result_of(#[trigger] front[k], id);
            assert(is_result_of(blocks[k], id));
        }
        if exists|k: int| 0 <= k < blocks.len() && is_result_of(#[trigger] blocks[k], id) {
            let k = choose|k: int| 0 <= k < blocks.len() && is_result_of(#[trigger] blocks[k], id);
            if k < front.len() {
                assert(is_result_of(front[k], id));
            }
        } else {
            assert(!is_result_of(blocks[blocks.len() - 1], id));
        }
    }
}

/// A tool result in a record's message ends its tool call: nothing runs and nothing waits
/// under its id after the record is noted.
pub proof fn lemma_noted_result_ends_its_tool(
    state: LiveStateView,
    record: TranscriptRecordView,
    millis: Option<i64>,
    message: JsonView,
    blocks: Seq<JsonView>,
    k: int,
    id: Seq<char>,
)
    requires
        record.raw.get("message"@) == Some(message),
        message.get("content"@) == Some(JsonView::List(blocks)),
        0 <= k < blocks.len(),
        blocks[k].get("type"@) == Some(JsonView::Text("tool_result"@)),
        blocks[k].get("tool_use_id"@) == Some(JsonView::Text(id)),
    ensures
        !is_open(with_timed_record(state, record, millis), id),
{
    assert(message_blocks(record.raw) == blocks);
    assert(is_result_of(blocks[k], id));
    let idled = if record.record_type == "user"@ && is_interrupt(record) {
        state.idled()
    } else {
        state
    };
    assert forall|before: LiveStateView| !is_open(#[trigger] with_results(before, blocks), id) by {
        lemma_results(before, blocks, id);
    }
}

/// What is open under an id that no tool result of a record's message names stays as it is,
/// where the record is no interrupt; and noting such a record changes neither the turn nor
/// the mode nor anything else but the message that is shown.
pub proof fn lemma_noted_record_keeps_the_rest(
    state: LiveStateView,
    record: TranscriptRecordView,
    millis: Option<i64>,
    id: Seq<char>,
)
    requires
        record.record_type != "user"@ || !is_interrupt(record),
    ensures
        ({
            let after = with_timed_record(state, record, millis);
            &&& (forall|message: JsonView, blocks: Seq<JsonView>, k: int|
                record.raw.get("message"@) == Some(message) && message.get("content"@) == Some(
                    JsonView::List(blocks),
                ) && 0 <= k < blocks.len() ==> !#[trigger] is_block_result(
                    message,
                    blocks,
                    k,
                    id,
                )) ==> same_under(state, after, id)
            &&& after.turn == state.turn
            &&& after.permission_mode == state.permission_mode
            &&& after.compacting == state.compacting
            &&& after.last_notification == state.last_notification
            &&& after.last_event_at_ms == state.last_event_at_ms
            &&& after.session_ended == state.session_ended
            &&& after.live_message is None || after.live_message == state.live_message
        }),
{
    let blocks = message_blocks(record.raw);
    let caught_up = match millis {
        Some(millis) if record.record_type == "assistant"@ => state.caught_up(millis),
        _ => state,
    };
    lemma_results(caught_up, blocks, id);
    if forall|message: JsonView, blocks: Seq<JsonView>, k: int|
        record.raw.get("message"@) == Some(message) && message.get("content"@) == Some(
            JsonView::List(blocks),
        ) && 0 <= k < blocks.len() ==> !#[trigger] is_block_result(message, blocks, k, id) {
        assert forall|k: int| 0 <= k < blocks.len() implies !is_result_of(#[trigger] blocks[k], id) by {
            let message = record.raw.get("message"@)->0;
            assert(!is_block_result(message, blocks, k, id));
        }
    }
}

/// Whether a block among a message's is the result of the tool call with this id.
pub open spec fn is_block_result(
    message: JsonView,
    blocks: Seq<JsonView>,
    k: int,
    id: Seq<char>,
) -> bool {
    is_result_of(blocks[k], id)
}

/// An answer in the transcript takes the place of the message that was being shown, once
/// that one is complete and not newer by more than two seconds; before that, and for any
/// other record, the message stays.
pub proof fn lemma_answer_catches_up(
    state: LiveStateView,
    record: TranscriptRecordView,
    millis: Option<i64>,
)
    requires
        record.record_type != "user"@,
        state.live_message is Some,
        state.live_message->0.updated_at_ms >= i64::MIN + 2000,
    ensures
        ({
            let shown = state.live_message->0;
            let after = with_timed_record(state, record, millis).live_message;
            &&& after is None <==> record.record_type == "assistant"@ && shown.is_final
                && millis is Some && shown.updated_at_ms - millis->0 <= 2000
            &&& after is Some ==> after == Some(shown)
        }),
{
    let caught_up = match millis {
        Some(millis) if record.record_type == "assistant"@ => state.caught_up(millis),
        _ => state,
    };
    lemma_results(caught_up, message_blocks(record.raw), Seq::empty());
}

/// What counts as the time of a record is its `timestamp`.
pub proof fn lemma_record_time(raw: JsonView)
    ensures
        forall|text: Seq<char>|
            raw.get("timestamp"@) == Some(JsonView::Text(text)) ==> record_millis(raw)
                == #[trigger] rfc3339_millis(text),
        !(raw.get("timestamp"@) is Some && raw.get("timestamp"@)->0 is Text) ==> record_millis(
            raw,
        ) is None,
{
}

/// Noting records one batch after the other is noting them all, one by one and in order.
pub proof fn lemma_records_are_noted_in_order(
    state: LiveStateView,
    first: Seq<TranscriptRecordView>,
    second: Seq<TranscriptRecordView>,
)
    ensures
        with_transcript(state, first + second) == with_transcript(
            with_transcript(state, first),
            second,
        ),
        first.len() == 1 ==> with_transcript(state, first) == with_timed_record(
            state,
            first[0],
            record_millis(first[0].raw),
        ),
        first.len() == 0 ==> with_transcript(state, first) == state,
    decreases second.len(),
{
    if second.len() > 0 {
        lemma_records_are_noted_in_order(state, first, second.drop_last());
        assert((first + second).drop_last() =~= first + second.drop_last());
    } else {
        assert(first + second =~= first);
    }
    if first.len() == 1 {
        assert(first.drop_last() =~= Seq::empty());
        assert(with_transcript(state, first.drop_last()) == state);
    }
}

/// A user's record that names the message it interrupted is an interrupt, and so is one
/// whose text is one of the two sentences, white space at its ends aside.
pub proof fn lemma_what_an_interrupt_is(
    record: TranscriptRecordView,
    message: JsonView,
    id: Seq<char>,
    text: Seq<char>,
)
    ensures
        record.raw.get("interruptedMessageId"@) == Some(JsonView::Text(id)) && id.len() > 0
            ==> is_interrupt(record),
        record.raw.get("message"@) == Some(message) && message.get("content"@) == Some(
            JsonView::Text(text),
        ) && (trimmed(text) == "[Request interrupted by user]"@ || trimmed(text)
            == "[Request interrupted by user for tool use]"@) ==> is_interrupt(record),
        record.raw.get("interruptedMessageId"@) is None && record.raw.get("message"@) == Some(
            message,
        ) && message.get("content"@) == Some(JsonView::Text(text)) && trimmed(text)
            != "[Request interrupted by user]"@ && trimmed(text)
            != "[Request interrupted by user for tool use]"@ ==> !is_interrupt(record),
        record.raw.get("interruptedMessageId"@) is None && record.raw.get("message"@) is None
            ==> !is_interrupt(record),
{
}

proof fn lemma_one_text_block(blocks: Seq<JsonView>, at: int)
    requires
        forall|k: int|
            0 <= k < blocks.len() && k != at ==> (#[trigger] blocks[k]).get("type"@) != Some(
                JsonView::Text("text"@),
            ),
    ensures
        0 <= at < blocks.len() && blocks[at].get("type"@) == Some(JsonView::Text("text"@))
            && blocks[at].get("text"@) is Some && blocks[at].get("text"@)->0 is Text ==> block_lines(
            blocks,
        ) == Some(blocks[at].get("text"@)->0->Text_0),
        !(0 <= at < blocks.len()) ==> block_lines(blocks) is None,
    decreases blocks.len(),
{
    if blocks.len() > 0 {
        let front = blocks.drop_last();
        assert forall|k: int| 0 <= k < front.len() && k != at implies (
        #[trigger] front[k]).get("type"@) != Some(JsonView::Text("text"@)) by {
            assert(blocks[k] == front[k]);
        }
        lemma_one_text_block(front, at);
        if at == blocks.len() - 1 {
            lemma_one_text_block(front, -1);
        } else {
            assert(blocks[blocks.len() - 1].get("type"@) != Some(JsonView::Text("text"@)));
        }
    }
}

/// Among the blocks of a message the text counts: a record with one text block is an
/// interrupt exactly where that text is one of the two sentences, and one without any is
/// none.
pub proof fn lemma_interrupt_in_blocks(
    record: TranscriptRecordView,
    message: JsonView,
    blocks: Seq<JsonView>,
    at: int,
    text: Seq<char>,
)
    requires
        record.raw.get("interruptedMessageId"@) is None,
        record.raw.get("message"@) == Some(message),
        message.get("content"@) == Some(JsonView::List(blocks)),
        forall|k: int|
            0 <= k < blocks.len() && k != at ==> (#[trigger] blocks[k]).get("type"@) != Some(
                JsonView::Text("text"@),
            ),
    ensures
        0 <= at < blocks.len() && blocks[at].get("type"@) == Some(JsonView::Text("text"@))
            && blocks[at].get("text"@) == Some(JsonView::Text(text)) ==> (is_interrupt(record)
            <==> trimmed(text) == "[Request interrupted by user]"@ || trimmed(text)
            == "[Request interrupted by user for tool use]"@),
        !(0 <= at < blocks.len()) ==> !is_interrupt(record),
{
    lemma_one_text_block(blocks, at);
    reveal_strlit("[Request interrupted by user]");
    reveal_strlit("[Request interrupted by user for tool use]");
    if !(0 <= at < blocks.len()) {
        assert(visible_text(record.raw) == Some(Seq::<char>::empty()));
        lemma_trimmed_is_no_longer(Seq::empty());
        assert(trimmed(Seq::<char>::empty()).len() == 0);
        assert("[Request interrupted by user]"@.len() > 0);
        assert("[Request interrupted by user for tool use]"@.len() > 0);
    }
}

proof fn lemma_trimmed_is_no_longer(text: Seq<char>)
    requires
        text.len() == 0,
    ensures
        trimmed(text).len() == 0,
{
}

proof fn lemma_event_names_differ()
    ensures
        "UserPromptSubmit"@ != "PermissionDenied"@,
        "PreToolUse"@ != "PreCompact"@,
        "PreToolUse"@ != "SessionEnd"@,
        "PreCompact"@ != "SessionEnd"@,
        "PostToolUse"@ != "PostCompact"@,
        "UserPromptSubmit"@.len() == 16,
        "PermissionDenied"@.len() == 16,
        "MessageDisplay"@.len() == 14,
        "PreToolUse"@.len() == 10,
        "PreCompact"@.len() == 10,
        "SessionEnd"@.len() == 10,
        "PermissionRequest"@.len() == 17,
        "PostToolUse"@.len() == 11,
        "PostCompact"@.len() == 11,
        "Notification"@.len() == 12,
        "Stop"@.len() == 4,
{
    reveal_strlit("UserPromptSubmit");
    reveal_strlit("PermissionDenied");
    reveal_strlit("MessageDisplay");
    reveal_strlit("PreToolUse");
    reveal_strlit("PreCompact");
    reveal_strlit("SessionEnd");
    reveal_strlit("PermissionRequest");
    reveal_strlit("PostToolUse");
    reveal_strlit("PostCompact");
    reveal_strlit("Notification");
    reveal_strlit("Stop");
    assert("UserPromptSubmit"@[0] == 'U');
    assert("PermissionDenied"@[0] == 'P');
    assert("PreToolUse"@[3] == 'T');
    assert("PreCompact"@[3] == 'C');
    assert("SessionEnd"@[0] == 'S');
    assert("PreToolUse"@[0] == 'P');
    assert("PreCompact"@[0] == 'P');
    assert("PostToolUse"@[4] == 'T');
    assert("PostCompact"@[4] == 'C');
}

/// A prompt begins a turn at its own time, with nothing open and the session alive; it says
/// nothing of compaction or notifications.
pub proof fn lemma_prompt_begins_a_turn(state: LiveStateView, event: HookEventView)
    requires
        event.name == "UserPromptSubmit"@,
    ensures
        ({
            let after = state.after(event);
            &&& after.turn == (Turn::Running { since_ms: event.received_at_ms })
            &&& after.running_tools.len() == 0
            &&& after.live_message is None && after.pending_permission is None
                && after.pending_question is None
            &&& !after.session_ended
            &&& after.compacting == state.compacting
            &&& after.last_notification == state.last_notification
        }),
{
}

/// The pieces of one message add up to its text, in order; a piece of another message, or
/// the first of one, begins it anew. Only the message changes.
pub proof fn lemma_pieces_add_up(
    state: LiveStateView,
    event: HookEventView,
    id: Option<JsonView>,
    delta: Seq<char>,
)
    requires
        event.name == "MessageDisplay"@,
        event.raw.get("message_id"@) == id,
        id is None || id->0 is Text,
        event.raw.get("delta"@) == Some(JsonView::Text(delta)),
    ensures
        ({
            let after = state.after(event);
            let same_message = state.live_message is Some && match id {
                Some(id) => state.live_message->0.message_id == Some(id->Text_0),
                None => state.live_message->0.message_id is None,
            };
            &&& after.live_message is Some
            &&& after.live_message->0.updated_at_ms == event.received_at_ms
            &&& after.live_message->0.is_final <==> event.raw.get("final"@) == Some(
                JsonView::Bool(true),
            )
            &&& match id {
                Some(id) => after.live_message->0.message_id == Some(id->Text_0),
                None => after.live_message->0.message_id is None,
            }
            &&& event.raw.get("index"@) is None && same_message ==> after.live_message->0.text
                == state.live_message->0.text + delta
            &&& !same_message ==> after.live_message->0.text == delta
            &&& (event.raw.get("index"@) matches Some(JsonView::Number(index)) ==> {
                &&& index.unsigned == Some(0u64) ==> after.live_message->0.text == delta
                &&& index.unsigned != Some(0u64) && same_message ==> after.live_message->0.text
                    == state.live_message->0.text + delta
            })
            &&& after.turn == state.turn && after.running_tools == state.running_tools
            &&& after.pending_permission == state.pending_permission
            &&& after.pending_question == state.pending_question
            &&& after.compacting == state.compacting
            &&& after.last_notification == state.last_notification
            &&& after.session_ended == state.session_ended
        }),
{
    lemma_event_names_differ();
}

/// The turn that a message belongs to is the one that its newest piece names, or else the
/// one that was known.
pub proof fn lemma_turn_of_a_message(state: LiveStateView, event: HookEventView, turn: Seq<char>)
    requires
        event.name == "MessageDisplay"@,
    ensures
        event.raw.get("turn_id"@) == Some(JsonView::Text(turn)) ==> state.after(
            event,
        ).live_message->0.turn_id == Some(turn),
        event.raw.get("turn_id"@) is None && state.live_message is Some
            && state.live_message->0.message_id is None && event.raw.get("message_id"@) is None
            && event.raw.get("index"@) is None ==> state.after(event).live_message->0.turn_id
            == state.live_message->0.turn_id,
{
    lemma_event_names_differ();
}

proof fn lemma_tool_put_in(tools: Seq<RunningToolView>, tool: RunningToolView, from: int)
    requires
        0 <= from <= tools.len(),
        forall|k: int| 0 <= k < from ==> (#[trigger] tools[k]).tool_use_id != tool.tool_use_id,
    ensures
        ({
            let at = crate::live_state::tool_position(tools, tool.tool_use_id, from);
            &&& from <= at <= tools.len()
            &&& at < tools.len() ==> tools[at].tool_use_id == tool.tool_use_id
            &&& forall|k: int| 0 <= k < at ==> (#[trigger] tools[k]).tool_use_id != tool.tool_use_id
        }),
    decreases tools.len() - from,
{
    if from < tools.len() && tools[from].tool_use_id != tool.tool_use_id {
        lemma_tool_put_in(tools, tool, from + 1);
    }
}

/// A tool call that names itself runs, under its name and with its input, since the time of
/// the event; every other tool stays; a permission for it has been given and waits no more.
pub proof fn lemma_call_runs(state: LiveStateView, event: HookEventView, id: Seq<char>)
    requires
        event.name == "PreToolUse"@,
        event.tool_use_id == Some(id),
        id.len() > 0,
    ensures
        ({
            let after = state.after(event);
            &&& exists|k: int|
                0 <= k < after.running_tools.len() && {
                    let tool = #[trigger] after.running_tools[k];
                    &&& tool.tool_use_id == id
                    &&& tool.started_at_ms == event.received_at_ms
                    &&& event.tool_name is Some ==> tool.name == event.tool_name->0
                    &&& event.tool_name is None ==> tool.name.len() == 0
                    &&& event.tool_input is Some ==> tool.input == event.tool_input->0
                    &&& event.tool_input is None ==> tool.input is Null
                }
            &&& forall|tool: RunningToolView|
                tool.tool_use_id != id ==> (#[trigger] state.running_tools.contains(tool)
                    <==> after.running_tools.contains(tool))
            &&& after.running_tools.len() == state.running_tools.len() + (if runs(state, id) {
                0int
            } else {
                1int
            })
            &&& after.pending_permission is Some ==> after.pending_permission->0.tool_use_id != id
                && after.pending_permission == state.pending_permission
            &&& state.pending_permission is Some && state.pending_permission->0.tool_use_id != id
                ==> after.pending_permission == state.pending_permission
            &&& after.turn == state.turn && after.live_message == state.live_message
            &&& after.compacting == state.compacting && after.session_ended == state.session_ended
            &&& after.last_notification == state.last_notification
        }),
{
    lemma_event_names_differ();
    let after = state.after(event);
    let tools = state.running_tools;
    let at = crate::live_state::tool_position(tools, id, 0);
    let tool = RunningToolView {
        tool_use_id: id,
        name: crate::json::text_or_empty(event.tool_name),
        input: crate::live_state::json_or_null(event.tool_input),
        started_at_ms: event.received_at_ms,
    };
    lemma_tool_put_in(tools, tool, 0);
    assert(after.running_tools == crate::live_state::with_tool(tools, tool));
    if at < tools.len() {
        assert(after.running_tools[at] == tool);
        assert(runs(state, id));
    } else {
        assert(after.running_tools[tools.len() as int] == tool);
        assert(!runs(state, id));
    }
    assert forall|other: RunningToolView| other.tool_use_id != id implies (
    #[trigger] tools.contains(other) <==> after.running_tools.contains(other)) by {
        if tools.contains(other) {
            let k = choose|k: int| 0 <= k < tools.len() && tools[k] == other;
            assert(after.running_tools[k] == other);
        }
        if after.running_tools.contains(other) {
            let k = choose|k: int|
                0 <= k < after.running_tools.len() && after.running_tools[k] == other;
            assert(k < tools.len() && tools[k] == other);
        }
    }
}

/// A call of the tool that asks the user is a question that waits, with the questions of its
/// input; a call of any other leaves the question as it was.
pub proof fn lemma_question_waits(
    state: LiveStateView,
    event: HookEventView,
    id: Seq<char>,
    input: JsonView,
)
    requires
        event.name == "PreToolUse"@,
        event.tool_use_id == Some(id),
        id.len() > 0,
        event.tool_input == Some(input),
    ensures
        event.tool_name == Some("AskUserQuestion"@) ==> {
            let question = state.after(event).pending_question;
            &&& question is Some
            &&& question->0.tool_use_id == id
            &&& question->0.since_ms == event.received_at_ms
            &&& input.get("questions"@) is Some ==> question->0.questions == input.get(
                "questions"@,
            )->0
            &&& input.get("questions"@) is None ==> question->0.questions is Null
        },
        event.tool_name != Some("AskUserQuestion"@) ==> state.after(event).pending_question
            == state.pending_question,
{
    lemma_event_names_differ();
    reveal_strlit("AskUserQuestion");
    assert("AskUserQuestion"@.len() == 15);
}

/// A request that names its tool call is the permission that waits, in place of any other;
/// nothing else changes.
pub proof fn lemma_request_waits(state: LiveStateView, event: HookEventView, id: Seq<char>)
    requires
        event.name == "PermissionRequest"@,
        event.tool_use_id == Some(id),
        id.len() > 0,
    ensures
        ({
            let after = state.after(event);
            let permission = after.pending_permission;
            &&& permission is Some
            &&& permission->0.tool_use_id == id
            &&& permission->0.since_ms == event.received_at_ms
            &&& event.tool_name is Some ==> permission->0.tool_name == event.tool_name->0
            &&& event.tool_input is Some ==> permission->0.tool_input == event.tool_input->0
            &&& event.tool_input is None ==> permission->0.tool_input is Null
            &&& after.running_tools == state.running_tools
            &&& after.pending_question == state.pending_question
            &&& after.turn == state.turn && after.live_message == state.live_message
            &&& after.compacting == state.compacting && after.session_ended == state.session_ended
        }),
{
    lemma_event_names_differ();
}

/// After a tool has been used nothing is open under its id, and what is open under another
/// stays. After a denial the same holds of tools and permissions, and questions stay.
pub proof fn lemma_used_and_denied(
    state: LiveStateView,
    event: HookEventView,
    id: Seq<char>,
    other: Seq<char>,
)
    requires
        event.name == "PostToolUse"@ || event.name == "PermissionDenied"@,
        event.tool_use_id == Some(id),
        other != id,
    ensures
        ({
            let after = state.after(event);
            &&& event.name == "PostToolUse"@ ==> !is_open(after, id)
            &&& event.name == "PermissionDenied"@ ==> !runs(after, id) && (
            after.pending_permission is Some ==> after.pending_permission->0.tool_use_id != id)
                && after.pending_question == state.pending_question
            &&& same_under(state, after, other)
            &&& after.turn == state.turn && after.live_message == state.live_message
            &&& after.compacting == state.compacting && after.session_ended == state.session_ended
        }),
{
    lemma_event_names_differ();
    let noted = state.noted(event);
    lemma_ending_one_tool(noted, id, id);
    lemma_ending_one_tool(noted, id, other);
    lemma_tools_left(noted.running_tools, id);
}

/// A notification is noted with its kind and its time and changes nothing else; the two ends
/// of a compaction change only whether one is going on; a subagent that stops changes
/// nothing, and neither does an event of another name.
pub proof fn lemma_small_events(state: LiveStateView, event: HookEventView, kind: Seq<char>)
    ensures
        event.name == "Notification"@ && event.raw.get("notification_type"@) == Some(
            JsonView::Text(kind),
        ) ==> state.after(event).last_notification == Some((kind, event.received_at_ms)),
        event.name == "PreCompact"@ ==> state.after(event).compacting,
        event.name == "PostCompact"@ ==> !state.after(event).compacting,
        event.name == "Notification"@ || event.name == "PreCompact"@ || event.name
            == "PostCompact"@ || event.name == "SubagentStop"@ ==> {
            let after = state.after(event);
            &&& after.running_tools == state.running_tools
            &&& after.live_message == state.live_message && after.turn == state.turn
            &&& after.pending_permission == state.pending_permission
            &&& after.pending_question == state.pending_question
            &&& after.session_ended == state.session_ended
            &&& event.name != "Notification"@ ==> after.last_notification
                == state.last_notification
            &&& event.name == "Notification"@ || event.name == "SubagentStop"@
                ==> after.compacting == state.compacting
        },
{
    lemma_event_names_differ();
    reveal_strlit("SubagentStop");
    reveal_strlit("Notification");
    assert("SubagentStop"@[0] == 'S');
    assert("Notification"@[0] == 'N');
    assert("SubagentStop"@.len() == 12);
}

/// A turn that stops and a user's interrupt leave the turn idle and nothing open, and keep
/// what else is known.
pub proof fn lemma_stop_idles(state: LiveStateView, event: HookEventView)
    requires
        event.name == "Stop"@,
    ensures
        ({
            let after = state.after(event);
            &&& after.turn is Idle && after.running_tools.len() == 0 && after.live_message is None
            &&& after.pending_permission is None && after.pending_question is None
            &&& after.session_ended == state.session_ended && after.compacting == state.compacting
            &&& after.last_notification == state.last_notification
            &&& state.idled().turn is Idle && state.idled().running_tools.len() == 0
            &&& state.idled().pending_permission is None && state.idled().pending_question is None
            &&& state.idled().session_ended == state.session_ended
        }),
{
    lemma_event_names_differ();
}

/// A session is idle exactly while no turn and no tool runs and neither a permission nor a
/// question waits.
pub proof fn lemma_what_idle_is(state: LiveStateView)
    ensures
        state.idle() <==> !(state.turn is Running) && state.pending_permission is None
            && state.pending_question is None && forall|id: Seq<char>| !#[trigger] runs(state, id),
{
    if state.running_tools.len() > 0 {
        assert(runs(state, state.running_tools[0].tool_use_id));
    }
}

} // verus!
