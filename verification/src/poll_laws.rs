//! What holds of the turns of the polls and of the times they keep.
use crate::polling::{
    channel_step, events_wait, status_wait, ChannelActionView, ChannelStageView, RegistryActionView, RegistryPoll,
    RegistryStage, TranscriptPoll,
};
use crate::session_store::{
    read_views, ConversationView, StoreClock, StoreView, TranscriptTargetView, CHANNEL_INBOX_POLL_INTERVAL_MS,
    EVENTS_POLL_INTERVAL_MS, HIDDEN_POLL_INTERVAL_MS, HOOKS_POLL_INTERVAL_MS, REGISTRY_POLL_INTERVAL_MS,
    REGISTRY_SCAN_TIMEOUT_SECONDS, STATUS_POLL_INTERVAL_MS, TRANSCRIPT_POLL_INTERVAL_MS,
};
use vstd::prelude::*;

verus! {

/// Whether the selected session is one of the ended rows.
pub open spec fn is_over(store: StoreView) -> bool {
    store.selected is Some && exists|k: int|
        0 <= k < store.ended.len() && (#[trigger] store.ended[k]).session_id == store.selected->0
}

/// While the panel is seen the conversation, the events and the inbox are read four times a
/// second, and the registry and the status once; else all of them every five seconds, as is the
/// conversation of a session that has ended. The hooks are looked for twice a minute, and a scan
/// of the registry has twenty seconds.
pub proof fn lemma_how_often_is_read(store: StoreView)
    ensures
        store.visible ==> store.interval(REGISTRY_POLL_INTERVAL_MS) == 1_000,
        store.visible ==> store.interval(STATUS_POLL_INTERVAL_MS) == 1_000,
        store.visible ==> store.interval(EVENTS_POLL_INTERVAL_MS) == 250,
        store.visible ==> store.interval(CHANNEL_INBOX_POLL_INTERVAL_MS) == 250,
        store.visible ==> events_wait(store) == 250 && status_wait(store) == 1_000,
        !store.visible ==> events_wait(store) == 5_000 && status_wait(store) == 5_000,
        store.visible && !is_over(store) ==> store.transcript_interval() == 250,
        !store.visible || is_over(store) ==> store.transcript_interval() == 5_000,
        forall|interval_ms: u64|
            !store.visible ==> #[trigger] store.interval(interval_ms) == 5_000,
        forall|interval_ms: u64|
            store.visible ==> #[trigger] store.interval(interval_ms) == interval_ms,
        HIDDEN_POLL_INTERVAL_MS == 5_000 && HOOKS_POLL_INTERVAL_MS == 30_000
            && TRANSCRIPT_POLL_INTERVAL_MS == 250 && REGISTRY_SCAN_TIMEOUT_SECONDS == 20,
{
}

/// Whether a read that was last answered at a time is overdue by some milliseconds.
pub open spec fn is_overdue_by(last: Option<u64>, budget_ms: int, now_ms: u64, by_ms: int) -> bool {
    last is Some && now_ms - last->0 - budget_ms == by_ms && by_ms > 0
}

/// The four reads, each with the time in which it is to be answered.
pub open spec fn last_answered(clock: StoreClock, name: Seq<char>) -> Option<u64> {
    if name == "transcript"@ {
        clock.last_transcript_ok_ms
    } else if name == "events"@ {
        clock.last_events_ok_ms
    } else if name == "status"@ {
        clock.last_status_ok_ms
    } else if name == "registry"@ {
        clock.last_registry_ok_ms
    } else {
        None
    }
}

pub open spec fn budget(name: Seq<char>) -> int {
    if name == "status"@ {
        15_000
    } else {
        5_000
    }
}

pub open spec fn is_a_read(name: Seq<char>) -> bool {
    name == "transcript"@ || name == "events"@ || name == "status"@ || name == "registry"@
}

proof fn lemma_reads_differ()
    ensures
        "transcript"@ != "events"@,
        "transcript"@ != "status"@,
        "transcript"@ != "registry"@,
        "events"@ != "status"@,
        "events"@ != "registry"@,
        "status"@ != "registry"@,
{
    reveal_strlit("transcript");
    reveal_strlit("events");
    reveal_strlit("status");
    reveal_strlit("registry");
    assert("transcript"@.len() == 10);
    assert("events"@.len() == 6);
    assert("status"@.len() == 6);
    assert("registry"@.len() == 8);
    assert("events"@[0] == 'e');
    assert("status"@[0] == 's');
}

/// What is stale is a read that is overdue by what is said, and none is overdue by more: the
/// status after fifteen seconds, the others after five. Nothing is stale exactly where no read
/// is overdue.
pub proof fn lemma_stale_read_is_overdue_the_most(
    clock: StoreClock,
    now_ms: u64,
    name: Seq<char>,
    by_ms: int,
)
    ensures
        match clock.most_overdue(now_ms) {
            Some(stale) => {
                &&& is_a_read(stale.0)
                &&& is_overdue_by(
                    last_answered(clock, stale.0),
                    budget(stale.0),
                    now_ms,
                    stale.1 as int,
                )
                &&& is_a_read(name) && is_overdue_by(
                    last_answered(clock, name),
                    budget(name),
                    now_ms,
                    by_ms,
                ) ==> by_ms <= stale.1
            },
            None => !(is_a_read(name) && is_overdue_by(
                last_answered(clock, name),
                budget(name),
                now_ms,
                by_ms,
            )),
        },
{
    lemma_reads_differ();
}

/// Of reads that are overdue alike the conversation is named before the events, these before
/// the status, and that before the registry.
pub proof fn lemma_ties_of_stale_reads(clock: StoreClock, now_ms: u64, by_ms: u64)
    requires
        clock.most_overdue(now_ms) is Some,
        (clock.most_overdue(now_ms)->0).1 == by_ms,
    ensures
        ({
            let name = (clock.most_overdue(now_ms)->0).0;
            if is_overdue_by(clock.last_transcript_ok_ms, 5_000, now_ms, by_ms as int) {
                name == "transcript"@
            } else if is_overdue_by(clock.last_events_ok_ms, 5_000, now_ms, by_ms as int) {
                name == "events"@
            } else if is_overdue_by(clock.last_status_ok_ms, 15_000, now_ms, by_ms as int) {
                name == "status"@
            } else {
                name == "registry"@
            }
        }),
{
    lemma_reads_differ();
}

/// While a session is followed that has not ended all four reads are looked at. Else only the
/// registry is: it is stale exactly where it is overdue, whatever the other clocks show.
pub proof fn lemma_what_can_be_stale(store: StoreView, now_ms: u64)
    ensures
        store.followed is Some && !is_over(store) ==> store.stale(now_ms)
            == store.clock.most_overdue(now_ms),
        store.followed is None || is_over(store) ==> match store.stale(now_ms) {
            Some(stale) => stale.0 == "registry"@ && is_overdue_by(
                store.clock.last_registry_ok_ms,
                5_000,
                now_ms,
                stale.1 as int,
            ),
            None => forall|by_ms: int|
                !#[trigger] is_overdue_by(store.clock.last_registry_ok_ms, 5_000, now_ms, by_ms),
        },
{
}

/// The poll of the registry asks for a scan exactly where a turn begins and none is in flight,
/// and for nothing else does the store change.
pub proof fn lemma_when_a_scan_is_asked_for(poll: RegistryPoll, store: StoreView, now_ms: i64)
    ensures
        ({
            let step = poll.after(store, now_ms);
            &&& step.action is Scan <==> poll.stage == RegistryStage::Turn && !store.scan_in_flight
            &&& !(step.action is Scan) ==> step.store == store
            &&& step.action is Scan ==> {
                &&& step.store.scan_in_flight
                &&& crate::read_laws::shows(step.store.registry_scan_started_ms, now_ms)
                &&& (StoreView {
                    scan_in_flight: store.scan_in_flight,
                    registry_scan_started_ms: store.registry_scan_started_ms,
                    ..step.store
                }) == store
                &&& step.poll.stage == RegistryStage::Subagents
            }
        }),
{
}

/// Behind the scan the poll asks for the subagents of the sessions that are listed, in their
/// order, where any is; then on every third turn for the agents; then it waits as long as the
/// turn said when it began.
pub proof fn lemma_what_the_registry_poll_asks_for(
    poll: RegistryPoll,
    store: StoreView,
    now_ms: i64,
)
    ensures
        ({
            let step = poll.after(store, now_ms);
            let subagents_due = poll.stage == RegistryStage::Subagents || poll.stage
                == RegistryStage::Turn && store.scan_in_flight;
            let passes = subagents_due && store.live_sessions.len() == 0;
            let agents_due = poll.stage == RegistryStage::Agents || passes;
            &&& step.action is ListSubagents <==> subagents_due && store.live_sessions.len() > 0
            &&& step.action matches RegistryActionView::ListSubagents { session_ids } ==> {
                &&& session_ids.len() == store.live_sessions.len()
                &&& forall|k: int|
                    0 <= k < session_ids.len() ==> #[trigger] session_ids[k]
                        == store.live_sessions[k].session.session_id
                &&& step.poll.stage == RegistryStage::Agents
                &&& step.poll.agents_tick == poll.agents_tick
            }
            &&& step.action is ListAgents <==> agents_due && poll.agents_tick % 3 == 0
            &&& step.action is ListAgents ==> step.poll.stage == RegistryStage::Rest
            &&& agents_due && poll.agents_tick < u32::MAX ==> step.poll.agents_tick
                == poll.agents_tick + 1
            &&& !agents_due ==> step.poll.agents_tick == poll.agents_tick
            &&& step.action is Wait <==> poll.stage == RegistryStage::Rest || agents_due
                && poll.agents_tick % 3 != 0
            &&& step.action matches RegistryActionView::Wait { interval_ms } ==> interval_ms
                == step.poll.interval_ms && step.poll.stage == RegistryStage::Turn
            &&& poll.stage == RegistryStage::Turn && store.visible ==> step.poll.interval_ms
                == 1_000
            &&& poll.stage == RegistryStage::Turn && !store.visible ==> step.poll.interval_ms
                == 5_000
            &&& poll.stage != RegistryStage::Turn ==> step.poll.interval_ms == poll.interval_ms
        }),
{
}

/// The channel is read while the selected session has a process: its inbox on every turn, from
/// where the reading had got to when the turn began, and before it its status on every fourth.
/// Else what is known of it is forgotten. Then the poll waits.
pub proof fn lemma_what_the_channel_poll_asks_for(
    stage: ChannelStageView,
    status_tick: u32,
    store: StoreView,
)
    ensures
        ({
            let step = channel_step(stage, status_tick, store);
            let process = store.selected_process();
            &&& step.action is Forget <==> stage is Turn && process is None
            &&& step.action is Forget ==> step.stage is Rest
            &&& step.action is ReadStatus <==> stage is Turn && process is Some && status_tick % 4
                == 0
            &&& step.action matches ChannelActionView::ReadStatus { claude_pid } ==> {
                &&& Some(claude_pid) == process
                &&& step.stage is Inbox
                &&& Some(step.stage->claude_pid) == process
                &&& step.stage->state.path == store.channel_inbox.path
                &&& step.stage->state.offset == store.channel_inbox.offset
                &&& step.stage->state.pending == store.channel_inbox.pending
                &&& step.stage->generation == store.channel_inbox.generation
            }
            &&& step.action is ReadInbox <==> stage is Inbox || stage is Turn && process is Some
                && status_tick % 4 != 0
            &&& step.action matches ChannelActionView::ReadInbox { claude_pid, state, generation }
                ==> {
                &&& step.stage is Rest
                &&& stage matches ChannelStageView::Inbox {
                    claude_pid: asked,
                    state: from,
                    generation: of,
                } ==> claude_pid == asked && state == from && generation == of
                &&& stage is Turn ==> Some(claude_pid) == process && state.path
                    == store.channel_inbox.path && state.offset == store.channel_inbox.offset
                    && state.pending == store.channel_inbox.pending && generation
                    == store.channel_inbox.generation
            }
            &&& step.action is Wait <==> stage is Rest
            &&& step.action matches ChannelActionView::Wait { interval_ms } ==> {
                &&& step.stage is Turn
                &&& store.visible ==> interval_ms == 250
                &&& !store.visible ==> interval_ms == 5_000
                &&& status_tick < u32::MAX ==> step.status_tick == status_tick + 1
            }
            &&& !(step.action is Wait) ==> step.status_tick == status_tick
        }),
{
}

/// A turn of the transcript poll reads the conversation of the session that is followed, then
/// that of the agent on screen, each from where its reading has got to. Where nothing is
/// followed it reads nothing; a turn that is under way goes on with what is left of it.
pub proof fn lemma_what_the_transcript_poll_reads(poll: TranscriptPoll, store: StoreView)
    ensures
        poll.in_turn ==> poll.due(store) == read_views(poll.reads@),
        !poll.in_turn && store.followed is None ==> poll.due(store).len() == 0,
        !poll.in_turn && store.followed is Some ==> {
            let due = poll.due(store);
            let on_screen = store.transcript_target is Subagent && store.subagent is Some;
            &&& due.len() == (if on_screen {
                2int
            } else {
                1int
            })
            &&& due[0].0 == TranscriptTargetView::Main && Some(due[0].1) == store.followed
            &&& due[0].2.path == store.main.path && due[0].2.offset == store.main.offset
                && due[0].2.pending == store.main.pending
            &&& on_screen ==> {
                &&& due[1].0 == store.transcript_target && Some(due[1].1) == store.followed
                &&& due[1].2.path == store.subagent->0.path
                &&& due[1].2.offset == store.subagent->0.offset
                &&& due[1].2.pending == store.subagent->0.pending
            }
        },
{
}

/// The events and the status are read for the session that is followed, and for none once the
/// selected one has ended; each read begins where the last one stopped.
pub proof fn lemma_whose_events_are_read(store: StoreView, conversation: ConversationView)
    ensures
        is_over(store) ==> store.read_session() is None,
        !is_over(store) ==> store.read_session() == store.followed,
        conversation.state().path == conversation.path,
        conversation.state().offset == conversation.offset,
        conversation.state().pending == conversation.pending,
{
}

} // verus!
