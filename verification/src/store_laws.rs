//! What holds of a store whatever it is told.
use crate::live_state::{ChannelInboxEventView, LiveStateView};
use crate::session_registry::{ChannelStatusView, TailProgressView};
use crate::session_rows::{
    ended_rows_are_kept, lemma_adding_keeps_rows, lemma_kept_rows, lemma_live_sessions_are_not_ended,
    lemma_merging_keeps_rows, live_and_ended_are_apart, LiveSessionView, Rows,
};
use crate::session_source::SessionListingView;
use crate::session_store::{
    asks_at, listed_live, newest_ask, ErrorSource, Scanning, StoreView, TranscriptTargetView,
    CHANNEL_INBOX_EVENTS_CAP,
};
use vstd::prelude::*;

verus! {

/// A read of a conversation that the store does not wait for, or that began elsewhere than
/// where its reading has got to, changes nothing.
pub proof fn lemma_stale_read_changes_nothing(
    store: StoreView,
    session_id: Seq<char>,
    target: TranscriptTargetView,
    progress: TailProgressView,
    now_ms: i64,
)
    requires
        !store.awaits(session_id, target) || store.conversation(target) is None
            || store.conversation(target)->0.offset != progress.start_offset,
    ensures
        store.with_tail_read(session_id, target, Ok(progress), now_ms).store == store,
        !store.with_tail_read(session_id, target, Ok(progress), now_ms).changed,
{
}

/// A read that failed for a session the store has left is not reported.
pub proof fn lemma_failed_read_of_a_left_session_is_not_reported(
    store: StoreView,
    session_id: Seq<char>,
    target: TranscriptTargetView,
    error: Seq<char>,
    now_ms: i64,
)
    requires
        store.followed != Some(session_id),
    ensures
        store.with_tail_read(session_id, target, Err(error), now_ms).store == store,
        store.with_events_read(session_id, 0, Err(error), now_ms).store == store,
{
}

/// The session's own conversation goes on being read while an agent's is on screen, and a
/// read of it leaves the agent's alone.
pub proof fn lemma_main_read_leaves_the_agent_alone(
    store: StoreView,
    session_id: Seq<char>,
    progress: TailProgressView,
    now_ms: i64,
)
    ensures
        ({
            let after = store.with_tail_read(
                session_id,
                TranscriptTargetView::Main,
                Ok(progress),
                now_ms,
            ).store;
            &&& after.subagent == store.subagent
            &&& after.transcript_target == store.transcript_target
        }),
{
}

/// No more inbox events are kept than the cap allows.
pub proof fn lemma_inbox_stays_bounded(
    store: StoreView,
    claude_pid: u32,
    generation: u64,
    start_offset: u64,
    progress: TailProgressView,
)
    requires
        store.channel_events.len() <= CHANNEL_INBOX_EVENTS_CAP,
    ensures
        store.with_inbox_read(
            claude_pid,
            generation,
            start_offset,
            Ok(progress),
        ).store.channel_events.len() <= CHANNEL_INBOX_EVENTS_CAP,
{
}

/// The numbers of the conversations were handed out by the one counter, and no two are
/// the same.
pub open spec fn generations_are_apart(store: StoreView) -> bool {
    &&& store.main.generation <= store.transcript_resets
    &&& store.subagent is Some ==> store.subagent->0.generation <= store.transcript_resets
        && store.subagent->0.generation != store.main.generation
}

/// Selecting a session, following another conversation and restarting one all keep the
/// numbers apart, until the counter is used up.
pub proof fn lemma_generations_stay_apart(
    store: StoreView,
    session_id: Seq<char>,
    target: TranscriptTargetView,
    progress: TailProgressView,
    now_ms: i64,
)
    requires
        generations_are_apart(store),
        store.transcript_resets < u64::MAX,
    ensures
        generations_are_apart(store.with_selection(session_id, now_ms)),
        generations_are_apart(store.with_target(target)),
        generations_are_apart(store.with_tail_read(session_id, target, Ok(progress), now_ms).store),
        store.selected != Some(session_id) ==> store.with_selection(
            session_id,
            now_ms,
        ).main.generation != store.main.generation,
{
}

/// A session that is selected anew is read from the beginning, and nothing that was known
/// of another one's activity is left.
pub proof fn lemma_selecting_starts_over(store: StoreView, session_id: Seq<char>, now_ms: i64)
    requires
        store.selected != Some(session_id),
    ensures
        ({
            let after = store.with_selection(session_id, now_ms);
            &&& after.selected == Some(session_id)
            &&& after.followed == Some(session_id)
            &&& after.live == LiveStateView::quiet()
            &&& after.main.transcript.records.len() == 0
            &&& after.main.offset == 0
            &&& after.subagent is None
            &&& after.status is None
            &&& after.channel is None
            &&& after.channel_events.len() == 0
            &&& !after.has_error(ErrorSource::Send)
            &&& after.subagents_by_session == store.subagents_by_session
            &&& after.live_sessions == store.live_sessions
        }),
{
}

/// The report of a send that failed outlives every poll that succeeds, except a scan that
/// finds the selected session replaced or ended.
pub proof fn lemma_polls_keep_a_send_error(
    store: StoreView,
    session_id: Seq<char>,
    target: TranscriptTargetView,
    claude_pid: u32,
    generation: u64,
    progress: TailProgressView,
    status: ChannelStatusView,
    now_ms: i64,
)
    requires
        store.has_error(ErrorSource::Send),
    ensures
        store.with_events_read(session_id, progress.start_offset, Ok(progress), now_ms).store.error
            == store.error,
        store.with_tail_read(session_id, target, Ok(progress), now_ms).store.error == store.error,
        store.with_inbox_read(
            claude_pid,
            generation,
            progress.start_offset,
            Ok(progress),
        ).store.error == store.error,
        store.with_channel_read(claude_pid, Ok(status), now_ms).store.error == store.error,
        store.with_hooks_read(Ok(true)).store.error == store.error,
        store.with_hooks_read(Ok(false)).store.error == store.error,
{
}

/// A scan that failed keeps what was listed.
pub proof fn lemma_failed_scan_keeps_the_list(store: StoreView, error: Seq<char>, now_ms: i64)
    ensures
        ({
            let after = store.with_registry_scan(Err(error), now_ms).store;
            &&& after.live_sessions == store.live_sessions
            &&& after.ended == store.ended
            &&& after.selected == store.selected
            &&& after.main == store.main
        }),
{
}

/// A request that is refused is reported with the reason it was refused for, and hands
/// nothing out; one that is not leaves no error of an earlier send behind.
pub proof fn lemma_refusals_are_reported(store: StoreView, content: Seq<char>, allow: bool)
    ensures
        ({
            let outcome = store.message_outcome(content);
            outcome is Err ==> store.with_outcome(outcome).error == Some(
                (ErrorSource::Send, outcome->Err_0),
            )
        }),
        ({
            let outcome = store.interrupt_outcome();
            outcome is Err ==> store.with_outcome(outcome).error == Some(
                (ErrorSource::Send, outcome->Err_0),
            )
        }),
        ({
            let outcome = store.answer_outcome(allow);
            outcome is Err ==> store.with_outcome(outcome).error == Some(
                (ErrorSource::Send, outcome->Err_0),
            )
        }),
        store.message_outcome(content) is Ok ==> !store.with_outcome(
            store.message_outcome(content),
        ).has_error(ErrorSource::Send),
        !store.is_channel_live() ==> store.message_outcome(content) is Err
            && store.interrupt_outcome() is Err,
{
}

proof fn lemma_newest_ask(
    events: Seq<ChannelInboxEventView>,
    end: int,
    tool_name: Seq<char>,
    asked_at_ms: i64,
)
    requires
        0 <= end <= events.len(),
    ensures
        newest_ask(events, end, tool_name, asked_at_ms) is Some ==> exists|k: int|
            0 <= k < end && #[trigger] asks_at(events, k, tool_name, asked_at_ms)
                && events[k]->PermissionRequest_request_id == newest_ask(
                events,
                end,
                tool_name,
                asked_at_ms,
            )->0,
        newest_ask(events, end, tool_name, asked_at_ms) is None ==> forall|k: int|
            0 <= k < end ==> !#[trigger] asks_at(events, k, tool_name, asked_at_ms),
    decreases end,
{
    if end > 0 && !asks_at(events, end - 1, tool_name, asked_at_ms) {
        lemma_newest_ask(events, end - 1, tool_name, asked_at_ms);
    }
}

/// A permission request can be answered exactly when the hook shows a prompt and the inbox
/// holds a request for it that has no answer.
pub proof fn lemma_open_request_answers_the_prompt(store: StoreView)
    ensures
        store.open_request() is Some <==> store.live.pending_permission is Some && exists|k: int|
            0 <= k < store.channel_events.len() && #[trigger] asks_at(
                store.channel_events,
                k,
                store.live.pending_permission->0.tool_name,
                store.live.pending_permission->0.since_ms,
            ),
{
    if let Some(pending) = store.live.pending_permission {
        lemma_newest_ask(
            store.channel_events,
            store.channel_events.len() as int,
            pending.tool_name,
            pending.since_ms,
        );
    }
}

proof fn lemma_listed_keep_rows(
    scan: Scanning,
    live: Seq<LiveSessionView>,
    previous: Seq<LiveSessionView>,
    selected_before: Option<Seq<char>>,
    now_ms: i64,
)
    requires
        ended_rows_are_kept(scan.store.ended),
    ensures
        ({
            let after = scan.with_all_listed(live, previous, selected_before, now_ms);
            &&& ended_rows_are_kept(after.store.ended)
            &&& after.store.cleared_rebinds.len() <= scan.store.cleared_rebinds.len() + (if scan.cleared {
                0int
            } else {
                1int
            })
            &&& !scan.cleared && !after.cleared ==> after.store.cleared_rebinds
                == scan.store.cleared_rebinds && after.store.selected == scan.store.selected
            &&& scan.store.cleared_rebinds.is_prefix_of(after.store.cleared_rebinds)
            &&& scan.cleared ==> after.cleared && after.store.cleared_rebinds
                == scan.store.cleared_rebinds
            &&& after.store.main == scan.store.main
            &&& after.store.live == scan.store.live
            &&& after.store.events == scan.store.events
            &&& after.store.followed == scan.store.followed
            &&& after.store.scan_in_flight == scan.store.scan_in_flight
        }),
    decreases live.len(),
{
    if live.len() > 0 {
        let earlier = scan.with_all_listed(live.drop_last(), previous, selected_before, now_ms);
        lemma_listed_keep_rows(scan, live.drop_last(), previous, selected_before, now_ms);
        let row = live.last();
        if let Some(replaced) = crate::session_rows::id_of_process(previous, row.session.process_id) {
            let old = crate::session_rows::live_with_id(previous, replaced)->0;
            let ended = earlier.store.ended_row(
                old,
                crate::session_rows::EndedReason::Cleared,
                now_ms,
            );
            lemma_adding_keeps_rows(earlier.store.ended, ended);
        }
        let after = scan.with_all_listed(live, previous, selected_before, now_ms);
        assert(scan.store.cleared_rebinds.is_prefix_of(earlier.store.cleared_rebinds));
        assert(scan.store.cleared_rebinds.is_prefix_of(after.store.cleared_rebinds)) by {
            let first = scan.store.cleared_rebinds;
            let middle = earlier.store.cleared_rebinds;
            let last = after.store.cleared_rebinds;
            assert forall|k: int| 0 <= k < first.len() implies first[k] == last[k] by {
                assert(middle.subrange(0, first.len() as int)[k] == first[k]);
            }
            assert(last.subrange(0, first.len() as int) =~= first);
        }
    } else {
        let first = scan.store.cleared_rebinds;
        assert(first.subrange(0, first.len() as int) =~= first);
    }
}

proof fn lemma_gone_keep_rows(
    scan: Scanning,
    previous: Seq<LiveSessionView>,
    live: Seq<LiveSessionView>,
    now_ms: i64,
)
    requires
        ended_rows_are_kept(scan.store.ended),
    ensures
        ({
            let after = scan.with_gone(previous, live, now_ms);
            &&& ended_rows_are_kept(after.store.ended)
            &&& after.store.cleared_rebinds == scan.store.cleared_rebinds
            &&& after.store.selected == scan.store.selected
            &&& after.store.main == scan.store.main
            &&& after.store.live == scan.store.live
            &&& after.store.events == scan.store.events
            &&& after.store.followed == scan.store.followed
            &&& after.store.scan_in_flight == scan.store.scan_in_flight
            &&& after.rebound == scan.rebound
            &&& after.cleared == scan.cleared
        }),
    decreases previous.len(),
{
    if previous.len() > 0 {
        let earlier = scan.with_gone(previous.drop_last(), live, now_ms);
        lemma_gone_keep_rows(scan, previous.drop_last(), live, now_ms);
        let row = earlier.store.ended_row(
            previous.last(),
            crate::session_rows::EndedReason::ProcessGone,
            now_ms,
        );
        lemma_adding_keeps_rows(earlier.store.ended, row);
    }
}

/// A scan keeps the ended rows few, each of another session, and none of a session that is
/// live after it, whether the scan lists it or an agent does. It records at most one replaced
/// session, behind those that were recorded before.
pub proof fn lemma_scan_keeps_rows(store: StoreView, listing: SessionListingView, now_ms: i64)
    requires
        ended_rows_are_kept(store.ended),
    ensures
        ({
            let after = store.with_registry_scan(Ok(listing), now_ms).store;
            &&& ended_rows_are_kept(after.ended)
            &&& live_and_ended_are_apart(Rows { live: after.live_sessions, ended: after.ended })
            &&& after.cleared_rebinds.len() <= store.cleared_rebinds.len() + 1
            &&& store.cleared_rebinds.is_prefix_of(after.cleared_rebinds)
            &&& after.scan_in_flight == store.scan_in_flight
        }),
{
    let live = listed_live(listing.sessions);
    let start = store.scanning(now_ms);
    let listed = start.with_all_listed(live, store.live_sessions, store.selected, now_ms);
    lemma_listed_keep_rows(start, live, store.live_sessions, store.selected, now_ms);
    let gone = listed.with_gone(store.live_sessions, live, now_ms);
    lemma_gone_keep_rows(listed, store.live_sessions, live, now_ms);
    let revived = gone.with_revived(live);
    lemma_kept_rows(gone.store.ended, live);
    lemma_live_sessions_are_not_ended(gone.store.ended, live);
    let rows = Rows { live, ended: revived.store.ended };
    assert(live_and_ended_are_apart(rows));
    lemma_merging_keeps_rows(rows, revived.store.agent_listings);
    let merged = revived.with_listing(listing, store.live_sessions);
    assert(merged.store.ended == rows.with_listings(revived.store.agent_listings).ended);
    assert(merged.store.live_sessions == rows.with_listings(revived.store.agent_listings).live);
}

/// A scan in which the selected session only changes its process keeps its conversation
/// and all that is known of its activity.
pub proof fn lemma_rebinding_keeps_the_conversation(
    store: StoreView,
    listing: SessionListingView,
    now_ms: i64,
)
    requires
        ended_rows_are_kept(store.ended),
        store.scanning(now_ms).with_all_listed(
            listed_live(listing.sessions),
            store.live_sessions,
            store.selected,
            now_ms,
        ).rebound,
    ensures
        ({
            let after = store.with_registry_scan(Ok(listing), now_ms).store;
            &&& after.main == store.main
            &&& after.live == store.live
            &&& after.events == store.events
            &&& after.followed == store.followed
        }),
{
    let live = listed_live(listing.sessions);
    let start = store.scanning(now_ms);
    let listed = start.with_all_listed(live, store.live_sessions, store.selected, now_ms);
    lemma_listed_keep_rows(start, live, store.live_sessions, store.selected, now_ms);
    lemma_gone_keep_rows(listed, store.live_sessions, live, now_ms);
}

} // verus!
