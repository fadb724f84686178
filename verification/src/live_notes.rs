//! What the records of a transcript say about the activity that hook events reported.
use crate::json::{field, string_field, sub_field, text_field, Json, JsonView};
use crate::live_state::{rfc3339_millis, timestamp_ms, LiveState, LiveStateView};
use crate::text::{same_text, trim, trimmed};
use crate::transcript::{record_views, TranscriptRecord, TranscriptRecordView};
use vstd::prelude::*;

verus! {

/// The texts of the text blocks among a message's blocks, a line each.
pub open spec fn block_lines(blocks: Seq<JsonView>) -> Option<Seq<char>>
    decreases blocks.len(),
{
    if blocks.len() == 0 {
        None
    } else {
        let earlier = block_lines(blocks.drop_last());
        let block = blocks.last();
        if text_field(block.get("type"@)) == Some("text"@) && text_field(block.get("text"@)) is Some {
            let line = text_field(block.get("text"@))->0;
            match earlier {
                Some(lines) => Some(lines.push('\n') + line),
                None => Some(line),
            }
        } else {
            earlier
        }
    }
}

/// The text that the user sees of a record's message.
pub open spec fn visible_text(raw: JsonView) -> Option<Seq<char>> {
    match field(raw.get("message"@), "content"@) {
        Some(JsonView::Text(text)) => Some(text),
        Some(JsonView::List(blocks)) => match block_lines(blocks) {
            Some(lines) => Some(lines),
            None => Some(Seq::empty()),
        },
        _ => None,
    }
}

/// Whether a record says that the user interrupted the turn: it names the message that
/// was interrupted, or its text is one of the two that stand for an interrupt.
pub open spec fn is_interrupt(record: TranscriptRecordView) -> bool {
    let named = match text_field(record.raw.get("interruptedMessageId"@)) {
        Some(id) => id.len() > 0,
        None => false,
    };
    let stated = match visible_text(record.raw) {
        Some(text) => trimmed(text) == "[Request interrupted by user]"@ || trimmed(text)
            == "[Request interrupted by user for tool use]"@,
        None => false,
    };
    named || stated
}

/// The state after the tool results among a message's blocks.
pub open spec fn with_results(state: LiveStateView, blocks: Seq<JsonView>) -> LiveStateView
    decreases blocks.len(),
{
    if blocks.len() == 0 {
        state
    } else {
        let earlier = with_results(state, blocks.drop_last());
        let block = blocks.last();
        match text_field(block.get("tool_use_id"@)) {
            Some(id) if text_field(block.get("type"@)) == Some("tool_result"@) =>
                earlier.with_result(id),
            _ => earlier,
        }
    }
}

pub open spec fn message_blocks(raw: JsonView) -> Seq<JsonView> {
    match field(raw.get("message"@), "content"@) {
        Some(JsonView::List(blocks)) => blocks,
        _ => Seq::empty(),
    }
}

/// The time that a record states.
pub open spec fn record_millis(raw: JsonView) -> Option<i64> {
    match text_field(raw.get("timestamp"@)) {
        Some(timestamp) => rfc3339_millis(timestamp),
        None => None,
    }
}

/// The state after a record has reached the transcript, where `millis` is the time it
/// states: an answer catches up with the message that was being shown, a user's interrupt
/// ends the turn, and a tool result ends its tool.
pub open spec fn with_timed_record(
    state: LiveStateView,
    record: TranscriptRecordView,
    millis: Option<i64>,
) -> LiveStateView {
    let caught_up = match millis {
        Some(millis) if record.record_type == "assistant"@ => state.caught_up(millis),
        _ => state,
    };
    let idled = if record.record_type == "user"@ && is_interrupt(record) {
        caught_up.idled()
    } else {
        caught_up
    };
    with_results(idled, message_blocks(record.raw))
}

/// The state after records have reached the transcript.
pub open spec fn with_transcript(state: LiveStateView, records: Seq<TranscriptRecordView>) -> LiveStateView
    decreases records.len(),
{
    if records.len() == 0 {
        state
    } else {
        with_timed_record(
            with_transcript(state, records.drop_last()),
            records.last(),
            record_millis(records.last().raw),
        )
    }
}

fn user_interrupt_text(raw: &Json) -> (text: Option<String>)
    ensures
        crate::text::text_option(text) == visible_text(raw@),
{
    match sub_field(raw.get("message"), "content") {
        Some(Json::Text(text)) => Some(text.clone()),
        Some(Json::List(blocks)) => {
            let ghost all = field(raw@.get("message"@), "content"@)->0->List_0;
            let mut lines = String::new();
            let mut any = false;
            let mut i: usize = 0;
            assert(all.take(0) =~= Seq::empty());
            while i < blocks.len()
                invariant
                    i <= blocks@.len(),
                    all.len() == blocks@.len(),
                    forall|k: int| 0 <= k < all.len() ==> #[trigger] all[k] == blocks@[k]@,
                    any == (block_lines(all.take(i as int)) is Some),
                    any ==> block_lines(all.take(i as int)) == Some(lines@),
                    !any ==> lines@.len() == 0,
                decreases blocks@.len() - i,
            {
                let block = &blocks[i];
                proof {
                    assert(all[i as int] == block@);
                    assert(all.take(i + 1).drop_last() =~= all.take(i as int));
                    assert(all.take(i + 1).last() == block@);
                }
                let is_text = match block.get("type") {
                    Some(Json::Text(kind)) => same_text(kind.as_str(), "text"),
                    _ => false,
                };
                if is_text {
                    if let Some(Json::Text(line)) = block.get("text") {
                        if any {
                            lines.push('\n');
                        }
                        lines.append(line.as_str());
                        assert(!any ==> lines@ =~= line@);
                        any = true;
                    }
                }
                i = i + 1;
            }
            assert(all.take(i as int) =~= all);
            assert(!any ==> lines@ =~= Seq::empty());
            Some(lines)
        },
        _ => None,
    }
}

fn record_is_user_interrupt(record: &TranscriptRecord) -> (result: bool)
    ensures
        result == is_interrupt(record@),
{
    if let Some(Json::Text(id)) = record.raw.get("interruptedMessageId") {
        if !id.as_str().is_empty() {
            return true;
        }
    }
    match user_interrupt_text(&record.raw) {
        Some(text) => {
            let text = trim(text.as_str());
            same_text(text, "[Request interrupted by user]") || same_text(
                text,
                "[Request interrupted by user for tool use]",
            )
        },
        None => false,
    }
}

fn note_tool_results(live: &mut LiveState, raw: &Json)
    ensures
        final(live)@ == with_results(old(live)@, message_blocks(raw@)),
{
    let ghost start = live@;
    if let Some(Json::List(blocks)) = sub_field(raw.get("message"), "content") {
        let ghost all = message_blocks(raw@);
        let mut i: usize = 0;
        assert(all.take(0) =~= Seq::empty());
        while i < blocks.len()
            invariant
                i <= blocks@.len(),
                all.len() == blocks@.len(),
                forall|k: int| 0 <= k < all.len() ==> #[trigger] all[k] == blocks@[k]@,
                live@ == with_results(start, all.take(i as int)),
            decreases blocks@.len() - i,
        {
            let block = &blocks[i];
            proof {
                assert(all[i as int] == block@);
                assert(all.take(i + 1).drop_last() =~= all.take(i as int));
                assert(all.take(i + 1).last() == block@);
            }
            let is_result = match block.get("type") {
                Some(Json::Text(kind)) => same_text(kind.as_str(), "tool_result"),
                _ => false,
            };
            if is_result {
                if let Some(Json::Text(tool_use_id)) = block.get("tool_use_id") {
                    live.note_tool_result(tool_use_id.as_str());
                }
            }
            i = i + 1;
        }
        assert(all.take(i as int) =~= all);
    }
}

/// Takes one record into the live state, given the time that it states.
pub fn note_record(live: &mut LiveState, record: &TranscriptRecord, millis: Option<i64>)
    ensures
        final(live)@ == with_timed_record(old(live)@, record@, millis),
{
    if same_text(record.record_type.as_str(), "assistant") {
        if let Some(millis) = millis {
            live.note_transcript_assistant(millis);
        }
    }
    if same_text(record.record_type.as_str(), "user") && record_is_user_interrupt(record) {
        live.note_interrupted();
    }
    note_tool_results(live, &record.raw);
}

/// Takes records that have reached the transcript into the live state.
pub fn note_transcript_into_live(live: &mut LiveState, records: &[TranscriptRecord])
    ensures
        final(live)@ == with_transcript(old(live)@, record_views(records@)),
{
    let ghost start = live@;
    let ghost all = record_views(records@);
    let mut i: usize = 0;
    assert(all.take(0) =~= Seq::empty());
    while i < records.len()
        invariant
            i <= records@.len(),
            all == record_views(records@),
            live@ == with_transcript(start, all.take(i as int)),
        decreases records@.len() - i,
    {
        proof {
            assert(all[i as int] == records@[i as int]@);
            assert(all.take(i + 1).drop_last() =~= all.take(i as int));
            assert(all.take(i + 1).last() == all[i as int]);
        }
        let millis = match string_field(records[i].raw.get("timestamp")) {
            Some(timestamp) => timestamp_ms(timestamp.as_str()),
            None => None,
        };
        note_record(live, &records[i], millis);
        i = i + 1;
    }
    assert(all.take(i as int) =~= all);
}

/// An interrupt that the user's record states ends the turn, whatever was open.
pub proof fn lemma_interrupt_record_idles(
    state: LiveStateView,
    record: TranscriptRecordView,
    millis: Option<i64>,
)
    requires
        record.record_type == "user"@,
        is_interrupt(record),
    ensures
        with_timed_record(state, record, millis).idle(),
{
    reveal_strlit("user");
    reveal_strlit("assistant");
    assert("user"@.len() == 4);
    assert("assistant"@.len() == 9);
    lemma_results_keep_idle(state.idled(), message_blocks(record.raw));
}

proof fn lemma_results_keep_idle(state: LiveStateView, blocks: Seq<JsonView>)
    requires
        state.idle(),
    ensures
        with_results(state, blocks).idle(),
    decreases blocks.len(),
{
    if blocks.len() > 0 {
        lemma_results_keep_idle(state, blocks.drop_last());
    }
}

} // verus!
