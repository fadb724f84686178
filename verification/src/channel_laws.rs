//! What holds of the requests that are made of a session's channel.
use crate::live_state::{ChannelInboxEventView, Turn};
use crate::row_laws::{is_absent, is_first_of, lemma_rows_are_found};
use crate::session_registry::ChannelStatusView;
use crate::session_store::{
    asks_at, interruptible, is_for_the_prompt, newest_ask, newest_request, refusal, ChannelRequest,
    ChannelRequestView, ErrorSource, StoreView,
};
use vstd::prelude::*;

verus! {

/// Whether the first row of the selected session is a live one of a process.
pub open spec fn is_selected_process(store: StoreView, process_id: u32) -> bool {
    &&& process_id != 0
    &&& store.selected is Some
    &&& exists|at: int|
        #[trigger] is_first_of(store.live_sessions, at, store.selected->0)
            && store.live_sessions[at].session.process_id == process_id
}

/// The selected process is the one that the first live row of the selected session names. There
/// is none where nothing is selected, where no live row is of the session, and where the row
/// names none.
pub proof fn lemma_selected_process(store: StoreView, process_id: u32, at: int)
    ensures
        store.selected_process() == Some(process_id) <==> is_selected_process(store, process_id),
        store.selected is None ==> store.selected_process() is None,
        store.selected is Some && is_absent(store.live_sessions, store.selected->0)
            ==> store.selected_process() is None,
        store.selected is Some && is_first_of(store.live_sessions, at, store.selected->0)
            && store.live_sessions[at].session.process_id == 0
            ==> store.selected_process() is None,
{
    if let Some(id) = store.selected {
        lemma_rows_are_found(store.live_sessions, store.ended, id, process_id, at);
        crate::session_rows::lemma_live_position(store.live_sessions, id, 0);
        let found = crate::session_rows::live_position(store.live_sessions, id, 0);
        if found < store.live_sessions.len() {
            assert(is_first_of(store.live_sessions, found, id));
        }
        if is_selected_process(store, process_id) {
            let row = choose|at: int|
                #[trigger] is_first_of(store.live_sessions, at, id)
                    && store.live_sessions[at].session.process_id == process_id;
            lemma_rows_are_found(store.live_sessions, store.ended, id, process_id, row);
        }
    }
}

/// Whether an event of the inbox asks for the permission that the session waits for: it names
/// the tool, was written within five seconds of the prompt, as far as both have a time, and
/// nothing behind it answers it.
pub open spec fn asks_for_the_prompt(store: StoreView, k: int) -> bool {
    let events = store.channel_events;
    &&& 0 <= k < events.len()
    &&& store.live.pending_permission is Some
    &&& events[k] is PermissionRequest
    &&& events[k]->PermissionRequest_request_id.len() > 0
    &&& events[k]->PermissionRequest_tool_name == store.live.pending_permission->0.tool_name
    &&& {
        let written = events[k]->PermissionRequest_at_ms;
        let shown = store.live.pending_permission->0.since_ms;
        written > 0 && shown > 0 ==> written - shown <= 5_000 && shown - written <= 5_000
    }
    &&& forall|later: int|
        k < later < events.len() ==> (#[trigger] events[later]) !is PermissionAnswered
            || events[later]->PermissionAnswered_request_id
            != events[k]->PermissionRequest_request_id
}

proof fn lemma_asks(store: StoreView, k: int)
    requires
        0 <= k < store.channel_events.len(),
        store.live.pending_permission is Some,
    ensures
        asks_at(
            store.channel_events,
            k,
            store.live.pending_permission->0.tool_name,
            store.live.pending_permission->0.since_ms,
        ) <==> asks_for_the_prompt(store, k),
{
    assert(is_for_the_prompt(
        store.channel_events[k]->PermissionRequest_at_ms,
        store.live.pending_permission->0.since_ms,
    ) <==> ({
        let written = store.channel_events[k]->PermissionRequest_at_ms;
        let shown = store.live.pending_permission->0.since_ms;
        written > 0 && shown > 0 ==> written - shown <= 5_000 && shown - written <= 5_000
    }));
}

proof fn lemma_newest_that_asks(store: StoreView, end: int, at: int)
    requires
        0 <= end <= store.channel_events.len(),
        store.live.pending_permission is Some,
        at == -1 || asks_for_the_prompt(store, at),
        at < end,
        forall|k: int| at < k < end ==> !#[trigger] asks_for_the_prompt(store, k),
    ensures
        newest_ask(
            store.channel_events,
            end,
            store.live.pending_permission->0.tool_name,
            store.live.pending_permission->0.since_ms,
        ) == (if at == -1 {
            None
        } else {
            Some(store.channel_events[at]->PermissionRequest_request_id)
        }),
    decreases end,
{
    if end > 0 {
        lemma_asks(store, end - 1);
        if at < end - 1 {
            assert(!asks_for_the_prompt(store, end - 1));
            lemma_newest_that_asks(store, end - 1, at);
        }
    }
}

/// The open request is the newest that asks for the permission that the session waits for.
/// Where none does, or the session waits for none, there is none.
pub proof fn lemma_open_request_is_the_newest(store: StoreView, at: int)
    ensures
        asks_for_the_prompt(store, at) && (forall|k: int|
            at < k < store.channel_events.len() ==> !#[trigger] asks_for_the_prompt(store, k))
            ==> store.open_request() == Some(
            store.channel_events[at]->PermissionRequest_request_id,
        ),
        (forall|k: int| !#[trigger] asks_for_the_prompt(store, k)) ==> store.open_request() is None,
        store.live.pending_permission is None ==> store.open_request() is None,
{
    let end = store.channel_events.len() as int;
    if store.live.pending_permission is Some {
        if asks_for_the_prompt(store, at) && (forall|k: int|
            at < k < end ==> !#[trigger] asks_for_the_prompt(store, k)) {
            lemma_newest_that_asks(store, end, at);
        }
        if forall|k: int| !#[trigger] asks_for_the_prompt(store, k) {
            lemma_newest_that_asks(store, end, -1);
        }
    }
}

/// An answer that is handed out says what the caller decided, on the request that is open, to
/// the process of the selected session. So to allow and to deny are handed out as different
/// answers.
pub proof fn lemma_answer_says_what_was_decided(store: StoreView, allow: bool)
    ensures
        match store.answer_outcome(allow) {
            Ok(ChannelRequestView::Permission { claude_pid, request_id, allow: said }) => {
                &&& said == allow
                &&& store.open_request() == Some(request_id)
                &&& is_selected_process(store, claude_pid)
            },
            Ok(_) => false,
            Err(message) => message == "No permission request is waiting to be answered."@,
        },
        store.answer_outcome(allow) is Ok <==> store.open_request() is Some
            && store.selected_process() is Some,
        store.answer_outcome(allow) is Ok ==> store.answer_outcome(!allow) is Ok
            && store.answer_outcome(!allow) != store.answer_outcome(allow),
{
    if let Some(process_id) = store.selected_process() {
        lemma_selected_process(store, process_id, 0);
    }
}

/// A message that is handed out has the text it was given and goes to the process of the
/// selected session. One is handed out exactly while the channel is live, the session has such
/// a process and has not ended; else the reason is reported.
pub proof fn lemma_message_is_sent_as_it_is(store: StoreView, content: Seq<char>)
    ensures
        ({
            let ended = store.live.session_ended || store.selected is Some && exists|k: int|
                0 <= k < store.ended.len() && (#[trigger] store.ended[k]).session_id
                    == store.selected->0;
            let reachable = store.channel is Some && store.channel->0.live
                && store.selected_process() is Some;
            match store.message_outcome(content) {
                Ok(ChannelRequestView::Message { claude_pid, content: sent }) => {
                    &&& sent == content
                    &&& is_selected_process(store, claude_pid)
                    &&& reachable && !ended
                },
                Ok(_) => false,
                Err(message) => {
                    &&& ended || !reachable
                    &&& ended ==> message == "session ended"@
                    &&& !ended ==> message == "Zed channel is not loaded in this session"@
                },
            }
        }),
{
    if let Some(process_id) = store.selected_process() {
        lemma_selected_process(store, process_id, 0);
    }
}

/// Whether a channel says that it can interrupt.
pub open spec fn can_be_interrupted_by(channel: ChannelStatusView) -> bool {
    exists|k: int| 0 <= k < channel.features.len() && #[trigger] channel.features[k] == "interrupt"@
}

/// A turn can be interrupted exactly while it runs and the channel is live and says that it
/// can. Else the reason names what is missing first: the channel, a server that can, the turn.
pub proof fn lemma_why_a_turn_cannot_be_interrupted(
    channel: Option<ChannelStatusView>,
    turn: Turn,
)
    ensures
        interruptible(channel, turn) <==> channel is Some && channel->0.live
            && can_be_interrupted_by(channel->0) && turn is Running,
        channel is None || !channel->0.live ==> refusal(channel, turn)
            == "Interrupt: channel not loaded"@,
        channel is Some && channel->0.live && !can_be_interrupted_by(channel->0) ==> refusal(
            channel,
            turn,
        ) == "Interrupt: channel server is too old"@,
        channel is Some && channel->0.live && can_be_interrupted_by(channel->0) && turn !is Running
            ==> refusal(channel, turn) == "Interrupt: session is idle"@,
        interruptible(channel, turn) ==> refusal(channel, turn) == "Interrupt: channel not loaded"@,
{
}

/// An interrupt is handed out exactly where the turn can be interrupted and the session has a
/// process, and goes to that process; else the reason is reported.
pub proof fn lemma_interrupt_goes_to_the_selected_process(store: StoreView)
    ensures
        match store.interrupt_outcome() {
            Ok(ChannelRequestView::Interrupt { claude_pid, reason }) => {
                &&& is_selected_process(store, claude_pid)
                &&& reason == "Stop requested from Zed"@
                &&& store.channel is Some && store.channel->0.live && can_be_interrupted_by(
                    store.channel->0,
                ) && store.live.turn is Running
            },
            Ok(_) => false,
            Err(message) => {
                &&& message == refusal(store.channel, store.live.turn)
                &&& store.selected_process() is None || !interruptible(
                    store.channel,
                    store.live.turn,
                )
            },
        },
{
    if let Some(process_id) = store.selected_process() {
        lemma_selected_process(store, process_id, 0);
    }
}

/// After a request the report of an earlier one is gone. What is reported is why this one was
/// refused; where it was not, an error of another source stays. Nothing else changes.
pub proof fn lemma_requests_are_reported(
    store: StoreView,
    outcome: Result<ChannelRequestView, Seq<char>>,
)
    ensures
        ({
            let after = store.with_outcome(outcome);
            &&& outcome is Err ==> after.error == Some((ErrorSource::Send, outcome->Err_0))
            &&& outcome is Ok && store.error is Some && (store.error->0).0 == ErrorSource::Send
                ==> after.error is None
            &&& outcome is Ok && (store.error is None || (store.error->0).0 != ErrorSource::Send)
                ==> after.error == store.error
            &&& (StoreView { error: store.error, ..after }) == store
        }),
{
}

/// The event of an open request is the newest request of that id.
pub proof fn lemma_event_of_a_request(
    events: Seq<ChannelInboxEventView>,
    id: Seq<char>,
    at: int,
)
    ensures
        0 <= at < events.len() && events[at] is PermissionRequest
            && events[at]->PermissionRequest_request_id == id && (forall|k: int|
            at < k < events.len() ==> (#[trigger] events[k]) !is PermissionRequest
                || events[k]->PermissionRequest_request_id != id) ==> newest_request(events, id)
            == Some(events[at]),
        (forall|k: int|
            0 <= k < events.len() ==> (#[trigger] events[k]) !is PermissionRequest
                || events[k]->PermissionRequest_request_id != id) ==> newest_request(events, id)
            is None,
    decreases events.len(),
{
    if events.len() > 0 {
        let front = events.drop_last();
        assert(forall|k: int| 0 <= k < front.len() ==> front[k] == events[k]);
        assert(events.last() == events[events.len() - 1]);
        lemma_event_of_a_request(front, id, at);
    }
}

/// What a request says is what it holds.
pub proof fn lemma_request_is_what_it_holds(request: ChannelRequest)
    ensures
        match request {
            ChannelRequest::Interrupt { claude_pid, reason } => {
                &&& request@ is Interrupt
                &&& request@->Interrupt_claude_pid == claude_pid
                &&& request@->reason == reason@
            },
            ChannelRequest::Message { claude_pid, content } => {
                &&& request@ is Message
                &&& request@->Message_claude_pid == claude_pid
                &&& request@->content == content@
            },
            ChannelRequest::Permission { claude_pid, request_id, allow } => {
                &&& request@ is Permission
                &&& request@->Permission_claude_pid == claude_pid
                &&& request@->request_id == request_id@
                &&& request@->allow == allow
            },
        },
{
}

} // verus!
