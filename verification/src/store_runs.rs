//! What holds of a store at every moment of its life.
use crate::polling::{RegistryPoll, RegistryStage};
use crate::session_registry::{
    AgentListingView, ChannelStatusView, RegisteredSessionView, SubagentSummaryView, TailProgressView,
};
use crate::session_rows::{
    ended_rows_are_kept, lemma_merging_keeps_rows, lemma_without_id_keeps_rows, live_and_ended_are_apart, Rows,
};
use crate::session_source::SessionListingView;
use crate::session_store::{ErrorSource, StoreView, TranscriptTargetView, REGISTRY_POLL_INTERVAL_MS};
use crate::store_laws::lemma_scan_keeps_rows;
use vstd::prelude::*;

verus! {

/// What can happen to a store: a call of one of its operations, or a step of the poll of the
/// registry.
pub enum StoreEvent {
    Poll { now_ms: i64 },
    /// The answer to a scan that the poll has asked for.
    ScanAnswered { scan: Result<SessionListingView, Seq<char>>, now_ms: i64 },
    ScanOverdue,
    /// A scan that was made otherwise.
    RegistryScan { scan: Result<SessionListingView, Seq<char>>, now_ms: i64 },
    TakeRebinds,
    SetVisible { visible: bool },
    Dismiss { id: Seq<char> },
    Seed { session: RegisteredSessionView, path: Option<Seq<char>> },
    Select { id: Seq<char>, now_ms: i64 },
    SelectTarget { target: TranscriptTargetView },
    Interrupt,
    Send { content: Seq<char> },
    Answer { allow: bool },
    RequestFailed { message: Seq<char> },
    EventsRead {
        session_id: Seq<char>,
        start_offset: u64,
        progress: Result<TailProgressView, Seq<char>>,
        now_ms: i64,
    },
    InboxRead {
        claude_pid: u32,
        generation: u64,
        start_offset: u64,
        progress: Result<TailProgressView, Seq<char>>,
    },
    TailRead {
        session_id: Seq<char>,
        target: TranscriptTargetView,
        progress: Result<TailProgressView, Seq<char>>,
        now_ms: i64,
    },
    StatusRead {
        session_id: Option<Seq<char>>,
        status: Option<Result<Option<Seq<char>>, Seq<char>>>,
        now_ms: i64,
    },
    ChannelRead { claude_pid: u32, status: Result<ChannelStatusView, Seq<char>>, now_ms: i64 },
    ForgetChannel,
    HooksRead { installed: Result<bool, Seq<char>> },
    SubagentScan { scan: Result<Map<Seq<char>, Seq<SubagentSummaryView>>, Seq<char>> },
    AgentListings { listings: Result<Seq<AgentListingView>, Seq<char>> },
}

/// A store in use, with the poll of its registry and the number of scans that are asked for
/// and not answered.
pub struct Running {
    pub poll: RegistryPoll,
    pub store: StoreView,
    pub outstanding: int,
}

impl StoreView {
    /// The store after an event that is not a step of the poll.
    pub open spec fn after_event(self, event: StoreEvent) -> StoreView {
        match event {
            StoreEvent::Poll { .. } => self,
            StoreEvent::ScanAnswered { scan, now_ms } => self.with_scan_finished(scan, now_ms).store,
            StoreEvent::ScanOverdue => self.with_scan_overdue().store,
            StoreEvent::RegistryScan { scan, now_ms } => self.with_registry_scan(scan, now_ms).store,
            StoreEvent::TakeRebinds => StoreView { cleared_rebinds: Seq::empty(), ..self },
            StoreEvent::SetVisible { visible } => StoreView { visible, ..self },
            StoreEvent::Dismiss { id } => self.with_dismissed(id),
            StoreEvent::Seed { session, path } => self.with_seed(session, path),
            StoreEvent::Select { id, now_ms } => self.with_selection(id, now_ms),
            StoreEvent::SelectTarget { target } => self.with_target(target),
            StoreEvent::Interrupt => self.with_outcome(self.interrupt_outcome()),
            StoreEvent::Send { content } => self.with_outcome(self.message_outcome(content)),
            StoreEvent::Answer { allow } => self.with_outcome(self.answer_outcome(allow)),
            StoreEvent::RequestFailed { message } => self.with_error(ErrorSource::Send, message),
            StoreEvent::EventsRead { session_id, start_offset, progress, now_ms } =>
                self.with_events_read(session_id, start_offset, progress, now_ms).store,
            StoreEvent::InboxRead { claude_pid, generation, start_offset, progress } =>
                self.with_inbox_read(claude_pid, generation, start_offset, progress).store,
            StoreEvent::TailRead { session_id, target, progress, now_ms } => self.with_tail_read(
                session_id,
                target,
                progress,
                now_ms,
            ).store,
            StoreEvent::StatusRead { session_id, status, now_ms } => self.with_status_read(
                session_id,
                status,
                now_ms,
            ).store,
            StoreEvent::ChannelRead { claude_pid, status, now_ms } => self.with_channel_read(
                claude_pid,
                status,
                now_ms,
            ).store,
            StoreEvent::ForgetChannel => self.without_channel().store,
            StoreEvent::HooksRead { installed } => self.with_hooks_read(installed).store,
            StoreEvent::SubagentScan { scan } => self.with_subagent_scan(scan).store,
            StoreEvent::AgentListings { listings } => self.with_agent_listings(listings),
        }
    }
}

impl Running {
    pub open spec fn started(product: Seq<char>, now_ms: i64) -> Running {
        Running {
            poll: RegistryPoll {
                stage: RegistryStage::Turn,
                agents_tick: 0,
                interval_ms: REGISTRY_POLL_INTERVAL_MS,
            },
            store: StoreView::fresh(product, now_ms),
            outstanding: 0,
        }
    }

    /// Only a scan that was asked for can be answered.
    pub open spec fn allows(self, event: StoreEvent) -> bool {
        event is ScanAnswered ==> self.outstanding > 0
    }

    pub open spec fn after(self, event: StoreEvent) -> Running {
        match event {
            StoreEvent::Poll { now_ms } => {
                let step = self.poll.after(self.store, now_ms);
                Running {
                    poll: step.poll,
                    store: step.store,
                    outstanding: if step.action is Scan {
                        self.outstanding + 1
                    } else {
                        self.outstanding
                    },
                }
            },
            StoreEvent::ScanAnswered { .. } => Running {
                store: self.store.after_event(event),
                outstanding: self.outstanding - 1,
                ..self
            },
            _ => Running { store: self.store.after_event(event), ..self },
        }
    }

    /// After all of some events, in their order.
    pub open spec fn after_all(self, events: Seq<StoreEvent>) -> Running
        decreases events.len(),
    {
        if events.len() == 0 {
            self
        } else {
            self.after_all(events.drop_last()).after(events.last())
        }
    }

    /// Whether each event could happen where it did.
    pub open spec fn allows_all(self, events: Seq<StoreEvent>) -> bool
        decreases events.len(),
    {
        events.len() == 0 || self.allows_all(events.drop_last()) && self.after_all(
            events.drop_last(),
        ).allows(events.last())
    }
}

proof fn lemma_event_keeps_the_store(store: StoreView, event: StoreEvent)
    requires
        ended_rows_are_kept(store.ended),
    ensures
        ended_rows_are_kept(store.after_event(event).ended),
        !(event is ScanAnswered) ==> store.after_event(event).scan_in_flight
            == store.scan_in_flight,
        event is ScanAnswered ==> !store.after_event(event).scan_in_flight,
{
    match event {
        StoreEvent::ScanAnswered { scan, now_ms } => {
            if let Ok(listing) = scan {
                lemma_scan_keeps_rows(
                    StoreView { scan_in_flight: false, registry_scan_started_ms: None, ..store },
                    listing,
                    now_ms,
                );
            }
        },
        StoreEvent::RegistryScan { scan, now_ms } => {
            if let Ok(listing) = scan {
                lemma_scan_keeps_rows(store, listing, now_ms);
            }
        },
        StoreEvent::Dismiss { id } => {
            lemma_without_id_keeps_rows(store.ended, id);
        },
        StoreEvent::AgentListings { listings } => {
            if let Ok(listings) = listings {
                lemma_merging_keeps_rows(
                    Rows { live: store.live_sessions, ended: store.ended },
                    listings,
                );
            }
        },
        _ => {},
    }
}

/// At no time are two scans of the registry outstanding: the poll asks for one only while
/// none is, nothing but the answer to it ends the wait, and no other operation, not even the
/// report that it is late, has the poll ask again.
pub proof fn lemma_one_scan_at_a_time(product: Seq<char>, now_ms: i64, events: Seq<StoreEvent>)
    requires
        Running::started(product, now_ms).allows_all(events),
    ensures
        0 <= Running::started(product, now_ms).after_all(events).outstanding <= 1,
        Running::started(product, now_ms).after_all(events).store.scan_in_flight == (
        Running::started(product, now_ms).after_all(events).outstanding == 1),
    decreases events.len(),
{
    if events.len() > 0 {
        let earlier = Running::started(product, now_ms).after_all(events.drop_last());
        lemma_one_scan_at_a_time(product, now_ms, events.drop_last());
        lemma_ended_rows_are_always_kept(product, now_ms, events.drop_last());
        lemma_event_keeps_the_store(earlier.store, events.last());
    }
}

/// At every moment there are at most [`crate::session_rows::ENDED_KEEP`] ended rows, each of
/// another session.
pub proof fn lemma_ended_rows_are_always_kept(
    product: Seq<char>,
    now_ms: i64,
    events: Seq<StoreEvent>,
)
    ensures
        ended_rows_are_kept(Running::started(product, now_ms).after_all(events).store.ended),
    decreases events.len(),
{
    if events.len() > 0 {
        let earlier = Running::started(product, now_ms).after_all(events.drop_last());
        lemma_ended_rows_are_always_kept(product, now_ms, events.drop_last());
        lemma_event_keeps_the_store(earlier.store, events.last());
    }
}

/// Whatever went before, after a scan no session is both live and ended: one that reappears
/// has left the ended rows.
pub proof fn lemma_no_session_is_live_and_ended_after_a_scan(
    product: Seq<char>,
    started_ms: i64,
    events: Seq<StoreEvent>,
    listing: SessionListingView,
    now_ms: i64,
)
    ensures
        ({
            let store = Running::started(product, started_ms).after_all(events).store;
            let after = store.with_registry_scan(Ok(listing), now_ms).store;
            &&& ended_rows_are_kept(after.ended)
            &&& live_and_ended_are_apart(Rows { live: after.live_sessions, ended: after.ended })
        }),
{
    lemma_ended_rows_are_always_kept(product, started_ms, events);
    lemma_scan_keeps_rows(
        Running::started(product, started_ms).after_all(events).store,
        listing,
        now_ms,
    );
}

/// A scan whose time is over is reported and still waited for; its answer, whenever it
/// comes, is taken in as any other is.
pub proof fn lemma_late_scan_is_still_taken_in(
    store: StoreView,
    scan: Result<SessionListingView, Seq<char>>,
    now_ms: i64,
)
    requires
        store.scan_in_flight,
    ensures
        ({
            let late = store.with_scan_overdue().store;
            &&& late.scan_in_flight
            &&& late.error == Some(
                (
                    ErrorSource::Poll,
                    "the machine these sessions run on"@ + " has not answered in 20 s"@,
                ),
            )
            &&& late.with_scan_finished(scan, now_ms) == (StoreView {
                scan_in_flight: false,
                registry_scan_started_ms: None,
                ..late
            }).with_registry_scan(scan, now_ms)
        }),
{
}

} // verus!
