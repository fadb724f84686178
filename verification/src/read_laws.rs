//! What holds of a store that is told what a poll has read.
use crate::json::json_of_text;
use crate::live_notes::with_transcript;
use crate::live_state::{
    event_of_wrapper, inbox_event_of, line_json, snapshot_of, ChannelInboxEventView, LiveStateView,
};
use crate::session_registry::{AgentListingView, ChannelStatusView, SubagentSummaryView, TailProgressView};
use crate::session_rows::Rows;
use crate::session_store::{
    event_of_line, inbox_event_of_line, newest_events, record_of_line, records_of_lines, with_event_lines,
    with_inbox_lines, ConversationView, ErrorSource, StoreView, TranscriptTargetView,
};
use crate::text::{stands_at, trimmed};
use crate::transcript::{record_of, TranscriptRecordView};
use vstd::prelude::*;

verus! {

/// Whether a clock shows the time it is; no time lies before the epoch.
pub open spec fn shows(clock: Option<u64>, now_ms: i64) -> bool {
    &&& clock is Some
    &&& now_ms >= 0 ==> clock->0 == now_ms
    &&& now_ms < 0 ==> clock->0 == 0
}

/// Whether a store reports exactly one thing more than another, that of a source.
pub open spec fn reports(
    before: StoreView,
    after: StoreView,
    source: ErrorSource,
    message: Seq<char>,
) -> bool {
    &&& after.error is Some && (after.error->0).0 == source && (after.error->0).1 == message
    &&& (StoreView { error: before.error, ..after }) == before
}

/// Whether the report of a source is gone, and one of another source is as it was.
pub open spec fn is_cleared(before: StoreView, after: StoreView, source: ErrorSource) -> bool {
    &&& before.error is Some && (before.error->0).0 == source ==> after.error is None
    &&& before.error is None || (before.error->0).0 != source ==> after.error == before.error
}

/// Whether a conversation is another one read on to where a read stopped.
pub open spec fn is_read_on(
    before: ConversationView,
    after: ConversationView,
    progress: TailProgressView,
) -> bool {
    &&& after.path == progress.path
    &&& after.offset == progress.offset
    &&& after.pending == progress.pending
    &&& after.generation == before.generation
}

/// Events are taken in line by line; a line that is none changes nothing.
pub proof fn lemma_event_lines_are_taken_in_order(
    state: LiveStateView,
    first: Seq<Seq<char>>,
    second: Seq<Seq<char>>,
    line: Seq<char>,
)
    ensures
        with_event_lines(state, first + second) == with_event_lines(
            with_event_lines(state, first),
            second,
        ),
        with_event_lines(state, Seq::empty()) == state,
        line_json(line) is None ==> with_event_lines(state, seq![line]) == state,
        line_json(line) is Some && event_of_wrapper(line_json(line)->0) is None
            ==> with_event_lines(state, seq![line]) == state,
        line_json(line) is Some && event_of_wrapper(line_json(line)->0) is Some
            ==> with_event_lines(state, seq![line]) == state.after(
            event_of_wrapper(line_json(line)->0)->0,
        ),
    decreases second.len(),
{
    if second.len() > 0 {
        lemma_event_lines_are_taken_in_order(state, first, second.drop_last(), line);
        assert((first + second).drop_last() =~= first + second.drop_last());
    } else {
        assert(first + second =~= first);
    }
    assert(seq![line].drop_last() =~= Seq::empty());
    assert(with_event_lines(state, seq![line].drop_last()) == state);
}

/// Lines of the inbox are taken in one after the other, each as one event behind the others.
/// A blank line is none; one that is no value is an event that is not known.
pub proof fn lemma_inbox_lines_are_taken_in_order(
    events: Seq<ChannelInboxEventView>,
    first: Seq<Seq<char>>,
    second: Seq<Seq<char>>,
    line: Seq<char>,
)
    ensures
        with_inbox_lines(events, first + second) == with_inbox_lines(
            with_inbox_lines(events, first),
            second,
        ),
        with_inbox_lines(events, Seq::empty()) == events,
        trimmed(line).len() == 0 ==> with_inbox_lines(events, seq![line]) == events,
        trimmed(line).len() > 0 && json_of_text(trimmed(line)) is None ==> with_inbox_lines(
            events,
            seq![line],
        ) == events + seq![ChannelInboxEventView::Unknown { raw: trimmed(line) }],
        trimmed(line).len() > 0 && json_of_text(trimmed(line)) is Some ==> with_inbox_lines(
            events,
            seq![line],
        ) == events + seq![inbox_event_of(json_of_text(trimmed(line))->0, trimmed(line))],
    decreases second.len(),
{
    if second.len() > 0 {
        lemma_inbox_lines_are_taken_in_order(events, first, second.drop_last(), line);
        assert((first + second).drop_last() =~= first + second.drop_last());
    } else {
        assert(first + second =~= first);
    }
    assert(seq![line].drop_last() =~= Seq::empty());
    assert(with_inbox_lines(events, seq![line].drop_last()) == events);
    if let Some(event) = inbox_event_of_line(line) {
        assert(events.push(event) =~= events + seq![event]);
    }
}

/// The records of two runs of lines are those of the first and behind them those of the
/// second; a line gives the record that it is, and a line that is none gives nothing.
pub proof fn lemma_records_come_from_lines(
    first: Seq<Seq<char>>,
    second: Seq<Seq<char>>,
    line: Seq<char>,
)
    ensures
        records_of_lines(first + second) == records_of_lines(first) + records_of_lines(second),
        ({
            let value = json_of_text(trimmed(line));
            if trimmed(line).len() > 0 && value is Some && record_of(value->0) is Some {
                records_of_lines(seq![line]) == seq![record_of(value->0)->0]
            } else {
                records_of_lines(seq![line]) == Seq::<TranscriptRecordView>::empty()
            }
        }),
    decreases second.len(),
{
    if second.len() > 0 {
        lemma_records_come_from_lines(first, second.drop_last(), line);
        assert((first + second).drop_last() =~= first + second.drop_last());
        assert(records_of_lines(first + second) =~= records_of_lines(first) + records_of_lines(
            second,
        ));
    } else {
        assert(first + second =~= first);
        assert(records_of_lines(first) + records_of_lines(second) =~= records_of_lines(first));
    }
    assert(seq![line].drop_last() =~= Seq::empty());
    assert(records_of_lines(seq![line].drop_last()) =~= Seq::empty());
    if let Some(record) = record_of_line(line) {
        assert(records_of_lines(seq![line]) =~= seq![record]);
    }
}

/// Of the events of the inbox the newest two hundred are kept, in their order.
pub proof fn lemma_newest_events_are_kept(events: Seq<ChannelInboxEventView>)
    ensures
        events.len() <= 200 ==> newest_events(events) == events,
        events.len() > 200 ==> newest_events(events).len() == 200,
        events.len() > 200 ==> forall|k: int|
            0 <= k < 200 ==> #[trigger] newest_events(events)[k] == events[events.len() - 200 + k],
{
}

/// A read of the events counts only for the session that is followed. One that failed is
/// reported. One that did not sets the clock of the events and clears an earlier report.
pub proof fn lemma_events_read(
    store: StoreView,
    session_id: Seq<char>,
    start_offset: u64,
    progress: Result<TailProgressView, Seq<char>>,
    now_ms: i64,
)
    ensures
        ({
            let applied = store.with_events_read(session_id, start_offset, progress, now_ms);
            let after = applied.store;
            &&& store.followed != Some(session_id) ==> after == store && !applied.changed
            &&& store.followed == Some(session_id) ==> match progress {
                Err(error) => {
                    &&& reports(store, after, ErrorSource::Events, "Reading events: "@ + error)
                    &&& applied.changed
                },
                Ok(progress) => {
                    let expected = progress.start_offset == start_offset && start_offset
                        == store.events.offset;
                    &&& is_cleared(store, after, ErrorSource::Events)
                    &&& shows(after.clock.last_events_ok_ms, now_ms)
                    &&& (StoreView {
                        error: store.error,
                        clock: crate::session_store::StoreClock {
                            last_events_ok_ms: store.clock.last_events_ok_ms,
                            ..after.clock
                        },
                        live: store.live,
                        events: store.events,
                        ..after
                    }) == store
                    &&& !expected ==> after.live == store.live && after.events == store.events
                        && !applied.changed
                    &&& expected ==> is_read_on(store.events, after.events, progress)
                    &&& expected && progress.restarted ==> after.live == with_event_lines(
                        LiveStateView::quiet(),
                        progress.lines,
                    ) && applied.changed
                    &&& expected && !progress.restarted ==> after.live == with_event_lines(
                        store.live,
                        progress.lines,
                    )
                    &&& expected && !progress.restarted ==> (applied.changed <==> exists|k: int|
                        0 <= k < progress.lines.len() && event_of_line(
                            #[trigger] progress.lines[k],
                        ) is Some)
                },
            }
        }),
{
}

/// A read of the inbox counts only for the process of the selected session and the inbox that
/// is being read. One that failed is reported; one that did not clears an earlier report.
pub proof fn lemma_inbox_read(
    store: StoreView,
    claude_pid: u32,
    generation: u64,
    start_offset: u64,
    progress: Result<TailProgressView, Seq<char>>,
)
    ensures
        ({
            let applied = store.with_inbox_read(claude_pid, generation, start_offset, progress);
            let after = applied.store;
            let awaited = store.selected_process() == Some(claude_pid)
                && store.channel_inbox.generation == generation;
            &&& !awaited ==> after == store && !applied.changed
            &&& awaited ==> match progress {
                Err(error) => {
                    &&& reports(store, after, ErrorSource::Channel, "Reading channel: "@ + error)
                    &&& applied.changed
                },
                Ok(progress) => {
                    let expected = progress.start_offset == start_offset && start_offset
                        == store.channel_inbox.offset;
                    let kept = if progress.restarted {
                        Seq::empty()
                    } else {
                        store.channel_events
                    };
                    &&& is_cleared(store, after, ErrorSource::Channel)
                    &&& (StoreView {
                        error: store.error,
                        channel_events: store.channel_events,
                        channel_inbox: store.channel_inbox,
                        ..after
                    }) == store
                    &&& !expected ==> after.channel_events == store.channel_events
                        && after.channel_inbox == store.channel_inbox && !applied.changed
                    &&& expected ==> is_read_on(store.channel_inbox, after.channel_inbox, progress)
                    &&& expected ==> after.channel_events == newest_events(
                        with_inbox_lines(kept, progress.lines),
                    )
                    &&& expected ==> (applied.changed <==> progress.restarted || exists|k: int|
                        0 <= k < progress.lines.len() && trimmed(#[trigger] progress.lines[k]).len()
                            > 0)
                },
            }
        }),
{
    if let Ok(progress) = progress {
        assert forall|k: int| 0 <= k < progress.lines.len() implies (inbox_event_of_line(
            #[trigger] progress.lines[k],
        ) is Some <==> trimmed(progress.lines[k]).len() > 0) by {}
    }
}

/// Whether a read is of a conversation that is followed: the session's own, or that of the
/// agent on screen.
pub open spec fn is_followed(
    store: StoreView,
    session_id: Seq<char>,
    target: TranscriptTargetView,
) -> bool {
    store.followed == Some(session_id) && (target is Main || target == store.transcript_target)
}

/// A read of a conversation counts only for one that is followed and where it goes on where
/// the reading has got to. One that failed is reported. One that counts adds its records, sets
/// the clock of the transcripts and clears an earlier report; the records of the session's own
/// conversation are noted in what is known of its activity, those of an agent's are not.
pub proof fn lemma_tail_read(
    store: StoreView,
    session_id: Seq<char>,
    target: TranscriptTargetView,
    progress: Result<TailProgressView, Seq<char>>,
    now_ms: i64,
)
    ensures
        ({
            let applied = store.with_tail_read(session_id, target, progress, now_ms);
            let after = applied.store;
            &&& !is_followed(store, session_id, target) ==> after == store && !applied.changed
            &&& is_followed(store, session_id, target) ==> match progress {
                Err(error) => {
                    &&& reports(
                        store,
                        after,
                        ErrorSource::Transcript,
                        "Reading transcript: "@ + error,
                    )
                    &&& applied.changed
                },
                Ok(progress) => {
                    let before = if target is Main {
                        Some(store.main)
                    } else {
                        store.subagent
                    };
                    let expected = before is Some && before->0.offset == progress.start_offset;
                    let records = records_of_lines(progress.lines);
                    let read = if target is Main {
                        after.main
                    } else {
                        after.subagent->0
                    };
                    &&& !expected ==> after == store && !applied.changed
                    &&& expected ==> {
                        &&& is_cleared(store, after, ErrorSource::Transcript)
                        &&& shows(after.clock.last_transcript_ok_ms, now_ms)
                        &&& (StoreView {
                            error: store.error,
                            clock: crate::session_store::StoreClock {
                                last_transcript_ok_ms: store.clock.last_transcript_ok_ms,
                                ..after.clock
                            },
                            live: store.live,
                            main: store.main,
                            subagent: store.subagent,
                            transcript_resets: store.transcript_resets,
                            ..after
                        }) == store
                        &&& target is Main ==> after.subagent == store.subagent && after.live
                            == with_transcript(store.live, records)
                        &&& target is Subagent ==> after.main == store.main && after.live
                            == store.live && after.subagent is Some
                        &&& read.path == progress.path && read.offset == progress.offset
                            && read.pending == progress.pending
                        &&& !progress.restarted ==> read.generation == before->0.generation
                            && read.transcript == before->0.transcript.with_records(records)
                            && after.transcript_resets == store.transcript_resets
                        &&& progress.restarted && store.transcript_resets < u64::MAX
                            ==> after.transcript_resets == store.transcript_resets + 1
                        &&& progress.restarted ==> read.generation == after.transcript_resets
                            && read.transcript == crate::transcript::TranscriptView::unread(
                            target is Subagent,
                        ).with_records(records)
                        &&& applied.changed <==> records.len() > 0 || progress.restarted
                            || before->0.path != progress.path || store.error is Some && (
                        store.error->0).0 == ErrorSource::Transcript
                    }
                },
            }
        }),
{
}

/// A read of the status line counts only for the session that is followed. One that failed is
/// reported. One that found a status shows it as of now; one that found none keeps the one
/// before. Both set the clock of the status and clear an earlier report. One that was not made
/// and one that cannot be read change nothing.
pub proof fn lemma_status_read(
    store: StoreView,
    session_id: Option<Seq<char>>,
    status: Option<Result<Option<Seq<char>>, Seq<char>>>,
    now_ms: i64,
)
    ensures
        ({
            let applied = store.with_status_read(session_id, status, now_ms);
            let after = applied.store;
            &&& store.followed != session_id ==> after == store && !applied.changed
            &&& store.followed == session_id ==> match status {
                None => after == store && !applied.changed,
                Some(Err(error)) => {
                    &&& reports(store, after, ErrorSource::Status, "Reading status: "@ + error)
                    &&& applied.changed
                },
                Some(Ok(text)) => {
                    let value = match text {
                        Some(text) => json_of_text(text),
                        None => None,
                    };
                    let shown = match value {
                        Some(value) => snapshot_of(value),
                        None => None,
                    };
                    if text is Some && shown is None {
                        after == store && !applied.changed
                    } else {
                        &&& is_cleared(store, after, ErrorSource::Status)
                        &&& shows(after.clock.last_status_ok_ms, now_ms)
                        &&& (StoreView {
                            error: store.error,
                            clock: crate::session_store::StoreClock {
                                last_status_ok_ms: store.clock.last_status_ok_ms,
                                ..after.clock
                            },
                            status: store.status,
                            status_updated_at: store.status_updated_at,
                            ..after
                        }) == store
                        &&& text is Some ==> after.status == shown && after.status_updated_at
                            == Some(now_ms) && applied.changed
                        &&& text is None ==> after.status == store.status
                            && after.status_updated_at == store.status_updated_at
                            && !applied.changed
                    }
                },
            }
        }),
{
}

/// A read of the channel counts only for the process of the selected session. One that failed
/// is reported; one that did not shows the channel as of now and clears an earlier report.
pub proof fn lemma_channel_read(
    store: StoreView,
    claude_pid: u32,
    status: Result<ChannelStatusView, Seq<char>>,
    now_ms: i64,
)
    ensures
        ({
            let applied = store.with_channel_read(claude_pid, status, now_ms);
            let after = applied.store;
            &&& store.selected_process() != Some(claude_pid) ==> after == store && !applied.changed
            &&& store.selected_process() == Some(claude_pid) ==> match status {
                Err(error) => {
                    &&& reports(store, after, ErrorSource::Channel, "Reading channel: "@ + error)
                    &&& applied.changed
                },
                Ok(status) => {
                    &&& after.channel == Some(status)
                    &&& after.channel_checked_at_ms == Some(now_ms)
                    &&& is_cleared(store, after, ErrorSource::Channel)
                    &&& (StoreView {
                        error: store.error,
                        channel: store.channel,
                        channel_checked_at_ms: store.channel_checked_at_ms,
                        ..after
                    }) == store
                    &&& applied.changed <==> store.channel != Some(status)
                },
            }
        }),
        ({
            let applied = store.without_channel();
            &&& applied.store.channel is None && applied.store.channel_checked_at_ms is None
            &&& (StoreView {
                channel: store.channel,
                channel_checked_at_ms: store.channel_checked_at_ms,
                ..applied.store
            }) == store
            &&& applied.changed <==> store.channel is Some || store.channel_checked_at_ms is Some
        }),
{
}

/// What a look for the hooks finds is what is known of them; one that failed is reported.
pub proof fn lemma_hooks_read(store: StoreView, installed: Result<bool, Seq<char>>)
    ensures
        ({
            let applied = store.with_hooks_read(installed);
            let after = applied.store;
            match installed {
                Err(error) => {
                    &&& reports(
                        store,
                        after,
                        ErrorSource::Hooks,
                        "Reading hook install state: "@ + error,
                    )
                    &&& applied.changed
                },
                Ok(installed) => {
                    &&& after.hooks_are_installed == installed
                    &&& is_cleared(store, after, ErrorSource::Hooks)
                    &&& (StoreView {
                        error: store.error,
                        hooks_are_installed: store.hooks_are_installed,
                        ..after
                    }) == store
                    &&& applied.changed <==> store.hooks_are_installed != installed || store.error
                        is Some && (store.error->0).0 == ErrorSource::Hooks
                },
            }
        }),
{
}

/// What a scan for subagents finds is what each session has; one that failed is reported and
/// keeps what was found before.
pub proof fn lemma_subagent_scan(
    store: StoreView,
    scan: Result<Map<Seq<char>, Seq<SubagentSummaryView>>, Seq<char>>,
    id: Seq<char>,
)
    ensures
        ({
            let applied = store.with_subagent_scan(scan);
            let after = applied.store;
            match scan {
                Err(error) => {
                    &&& reports(
                        store,
                        after,
                        ErrorSource::Subagents,
                        "Listing subagents: "@ + error,
                    )
                    &&& applied.changed
                },
                Ok(found) => {
                    &&& found.contains_key(id) ==> after.subagents_under(id) == found[id]
                    &&& !found.contains_key(id) ==> after.subagents_under(id).len() == 0
                    &&& is_cleared(store, after, ErrorSource::Subagents)
                    &&& (StoreView {
                        error: store.error,
                        subagents_by_session: store.subagents_by_session,
                        ..after
                    }) == store
                    &&& applied.changed <==> store.subagents_by_session != found
                },
            }
        }),
{
}

/// A listing of agents takes the place of the one before and is merged into the rows. One that
/// was not answered is reported as an error; one that was refused otherwise gives the reason
/// why there are no agents. Both keep what was listed.
pub proof fn lemma_agents_listed(
    store: StoreView,
    listings: Result<Seq<AgentListingView>, Seq<char>>,
)
    ensures
        ({
            let after = store.with_agent_listings(listings);
            match listings {
                Err(error) => if exists|at: int| #[trigger]
                    stands_at(error, "has not answered"@, at) {
                    reports(store, after, ErrorSource::Agents, "Listing agents: "@ + error)
                } else {
                    &&& after.agents_unavailable_reason == Some(error)
                    &&& (StoreView {
                        agents_unavailable_reason: store.agents_unavailable_reason,
                        ..after
                    }) == store
                },
                Ok(listings) => {
                    let rows = Rows { live: store.live_sessions, ended: store.ended }.with_listings(
                        listings,
                    );
                    &&& after.agent_listings == listings
                    &&& after.agents_unavailable_reason is None
                    &&& is_cleared(store, after, ErrorSource::Agents)
                    &&& after.live_sessions == rows.live && after.ended == rows.ended
                    &&& (StoreView {
                        error: store.error,
                        agents_unavailable_reason: store.agents_unavailable_reason,
                        agent_listings: store.agent_listings,
                        live_sessions: store.live_sessions,
                        ended: store.ended,
                        ..after
                    }) == store
                },
            }
        }),
{
}

} // verus!
