//! The turns of the polls that keep a store up to date.
//!
//! A poll alternates between asking the machine the sessions run on and deciding what to
//! ask for next. What is decided stands here; whoever runs a poll does what it is told,
//! hands the answer to the store, and asks for the next step.
use crate::session_registry::{TailState, TailStateView};
use crate::session_store::{
    read_views, ClaudeSessionStore, StoreView, TranscriptTarget, TranscriptTargetView, CHANNEL_INBOX_POLL_INTERVAL_MS,
    CHANNEL_STATUS_POLL_TICKS, EVENTS_POLL_INTERVAL_MS, REGISTRY_POLL_INTERVAL_MS, STATUS_POLL_INTERVAL_MS,
};
use crate::transcript::texts;
use vstd::prelude::*;

verus! {

/// How far a turn of the registry poll has got.
#[derive(Clone, Copy, Debug, PartialEq, Eq, Structural)]
pub enum RegistryStage {
    Turn,
    Subagents,
    Agents,
    Rest,
}

/// The poll of the registry, which also looks for subagents and, on every third turn, for
/// the agents that the command line lists.
#[derive(Clone, Copy, Debug, PartialEq, Eq, Structural)]
pub struct RegistryPoll {
    pub stage: RegistryStage,
    pub agents_tick: u32,
    pub interval_ms: u64,
}

/// What the registry poll does next.
#[derive(Debug, PartialEq, Eq)]
pub enum RegistryAction {
    /// Ask for the sessions, without waiting for the answer, and have
    /// [`ClaudeSessionStore::registry_scan_overdue`] called when the time for it is over.
    /// The answer goes to [`ClaudeSessionStore::finish_registry_scan`].
    Scan,
    /// Ask for the subagents of these sessions. The answer goes to
    /// [`ClaudeSessionStore::apply_subagent_scan`].
    ListSubagents { session_ids: Vec<String> },
    /// Ask for the agents. The answer goes to [`ClaudeSessionStore::apply_agent_listings`].
    ListAgents,
    Wait { interval_ms: u64 },
}

/// What a [`RegistryAction`] says.
pub enum RegistryActionView {
    Scan,
    ListSubagents { session_ids: Seq<Seq<char>> },
    ListAgents,
    Wait { interval_ms: u64 },
}

impl View for RegistryAction {
    type V = RegistryActionView;

    open spec fn view(&self) -> RegistryActionView {
        match *self {
            RegistryAction::Scan => RegistryActionView::Scan,
            RegistryAction::ListSubagents { session_ids } => RegistryActionView::ListSubagents {
                session_ids: texts(session_ids@),
            },
            RegistryAction::ListAgents => RegistryActionView::ListAgents,
            RegistryAction::Wait { interval_ms } => RegistryActionView::Wait { interval_ms },
        }
    }
}

/// A poll after a step, the store after it, and what is to be done.
pub struct RegistryStep {
    pub poll: RegistryPoll,
    pub store: StoreView,
    pub action: RegistryActionView,
}

pub open spec fn next_tick(tick: u32) -> u32 {
    if tick < u32::MAX {
        (tick + 1) as u32
    } else {
        u32::MAX
    }
}

impl RegistryPoll {
    pub open spec fn at_agents(self, store: StoreView) -> RegistryStep {
        let ticked = RegistryPoll { agents_tick: next_tick(self.agents_tick), ..self };
        if self.agents_tick % 3 == 0 {
            RegistryStep {
                poll: RegistryPoll { stage: RegistryStage::Rest, ..ticked },
                store,
                action: RegistryActionView::ListAgents,
            }
        } else {
            ticked.at_rest(store)
        }
    }

    pub open spec fn at_rest(self, store: StoreView) -> RegistryStep {
        RegistryStep {
            poll: RegistryPoll { stage: RegistryStage::Turn, ..self },
            store,
            action: RegistryActionView::Wait { interval_ms: self.interval_ms },
        }
    }

    pub open spec fn at_subagents(self, store: StoreView) -> RegistryStep {
        if store.live_sessions.len() > 0 {
            RegistryStep {
                poll: RegistryPoll { stage: RegistryStage::Agents, ..self },
                store,
                action: RegistryActionView::ListSubagents { session_ids: store.listed_ids() },
            }
        } else {
            self.at_agents(store)
        }
    }

    /// A scan that is in flight is not asked for again.
    pub open spec fn at_turn(self, store: StoreView, now_ms: i64) -> RegistryStep {
        let timed = RegistryPoll { interval_ms: store.interval(REGISTRY_POLL_INTERVAL_MS), ..self };
        if store.scan_in_flight {
            timed.at_subagents(store)
        } else {
            RegistryStep {
                poll: RegistryPoll { stage: RegistryStage::Subagents, ..timed },
                store: store.with_scan_begun(now_ms),
                action: RegistryActionView::Scan,
            }
        }
    }

    pub open spec fn after(self, store: StoreView, now_ms: i64) -> RegistryStep {
        match self.stage {
            RegistryStage::Turn => self.at_turn(store, now_ms),
            RegistryStage::Subagents => self.at_subagents(store),
            RegistryStage::Agents => self.at_agents(store),
            RegistryStage::Rest => self.at_rest(store),
        }
    }

    pub fn new() -> (poll: RegistryPoll)
        ensures
            poll == (RegistryPoll {
                stage: RegistryStage::Turn,
                agents_tick: 0,
                interval_ms: REGISTRY_POLL_INTERVAL_MS,
            }),
    {
        RegistryPoll {
            stage: RegistryStage::Turn,
            agents_tick: 0,
            interval_ms: REGISTRY_POLL_INTERVAL_MS,
        }
    }

    /// The next step of the poll.
    pub fn step(&mut self, store: &mut ClaudeSessionStore, now_ms: i64) -> (action: RegistryAction)
        requires
            old(store).well_formed(),
        ensures
            final(store).well_formed(),
            (RegistryStep { poll: *final(self), store: final(store)@, action: action@ }) == old(
                self,
            ).after(old(store)@, now_ms),
            action is Scan ==> !old(store)@.scan_in_flight && final(store)@.scan_in_flight,
            !(action is Scan) ==> final(store)@ == old(store)@,
    {
        if self.stage == RegistryStage::Turn {
            self.interval_ms = store.poll_interval_ms(REGISTRY_POLL_INTERVAL_MS);
            if !store.scan_in_flight() {
                store.begin_registry_scan(now_ms);
                self.stage = RegistryStage::Subagents;
                return RegistryAction::Scan;
            }
            self.stage = RegistryStage::Subagents;
        }
        if self.stage == RegistryStage::Subagents {
            let session_ids = store.listed_session_ids();
            assert(texts(session_ids@).len() == store@.listed_ids().len());
            if session_ids.len() > 0 {
                self.stage = RegistryStage::Agents;
                return RegistryAction::ListSubagents { session_ids };
            }
            self.stage = RegistryStage::Agents;
        }
        if self.stage == RegistryStage::Agents {
            let due = self.agents_tick % 3 == 0;
            self.agents_tick = self.agents_tick.saturating_add(1);
            if due {
                self.stage = RegistryStage::Rest;
                return RegistryAction::ListAgents;
            }
        }
        self.stage = RegistryStage::Turn;
        RegistryAction::Wait { interval_ms: self.interval_ms }
    }
}

/// How far a turn of the channel poll has got.
#[derive(Debug, PartialEq, Eq)]
pub enum ChannelStage {
    Turn,
    /// The inbox is to be read as it was to be when the turn began.
    Inbox { claude_pid: u32, state: TailState, generation: u64 },
    Rest,
}

/// What a [`ChannelStage`] says.
pub enum ChannelStageView {
    Turn,
    Inbox { claude_pid: u32, state: TailStateView, generation: u64 },
    Rest,
}

impl View for ChannelStage {
    type V = ChannelStageView;

    open spec fn view(&self) -> ChannelStageView {
        match *self {
            ChannelStage::Turn => ChannelStageView::Turn,
            ChannelStage::Inbox { claude_pid, state, generation } => ChannelStageView::Inbox {
                claude_pid,
                state: state@,
                generation,
            },
            ChannelStage::Rest => ChannelStageView::Rest,
        }
    }
}

/// The poll of a session's channel: its inbox on every turn, its status on every fourth.
pub struct ChannelPoll {
    pub stage: ChannelStage,
    pub status_tick: u32,
}

/// What the channel poll does next.
#[derive(Debug, PartialEq, Eq)]
pub enum ChannelAction {
    /// The answer goes to [`ClaudeSessionStore::apply_channel_status`].
    ReadStatus { claude_pid: u32 },
    /// The answer goes to [`ClaudeSessionStore::apply_channel_inbox_progress`], with the
    /// offset of `state` as the one that the read began at.
    ReadInbox { claude_pid: u32, state: TailState, generation: u64 },
    /// There is nothing to read: [`ClaudeSessionStore::forget_channel`].
    Forget,
    Wait { interval_ms: u64 },
}

/// What a [`ChannelAction`] says.
pub enum ChannelActionView {
    ReadStatus { claude_pid: u32 },
    ReadInbox { claude_pid: u32, state: TailStateView, generation: u64 },
    Forget,
    Wait { interval_ms: u64 },
}

impl View for ChannelAction {
    type V = ChannelActionView;

    open spec fn view(&self) -> ChannelActionView {
        match *self {
            ChannelAction::ReadStatus { claude_pid } => ChannelActionView::ReadStatus {
                claude_pid,
            },
            ChannelAction::ReadInbox { claude_pid, state, generation } =>
                ChannelActionView::ReadInbox { claude_pid, state: state@, generation },
            ChannelAction::Forget => ChannelActionView::Forget,
            ChannelAction::Wait { interval_ms } => ChannelActionView::Wait { interval_ms },
        }
    }
}

/// The channel poll after a step, and what is to be done.
pub struct ChannelStep {
    pub stage: ChannelStageView,
    pub status_tick: u32,
    pub action: ChannelActionView,
}

/// The next step of the channel poll.
pub open spec fn channel_step(stage: ChannelStageView, status_tick: u32, store: StoreView) -> ChannelStep {
    match stage {
        ChannelStageView::Turn => match store.selected_process() {
            Some(claude_pid) => {
                let state = store.channel_inbox.state();
                let generation = store.channel_inbox.generation;
                if status_tick % CHANNEL_STATUS_POLL_TICKS == 0 {
                    ChannelStep {
                        stage: ChannelStageView::Inbox { claude_pid, state, generation },
                        status_tick,
                        action: ChannelActionView::ReadStatus { claude_pid },
                    }
                } else {
                    ChannelStep {
                        stage: ChannelStageView::Rest,
                        status_tick,
                        action: ChannelActionView::ReadInbox { claude_pid, state, generation },
                    }
                }
            },
            None => ChannelStep {
                stage: ChannelStageView::Rest,
                status_tick,
                action: ChannelActionView::Forget,
            },
        },
        ChannelStageView::Inbox { claude_pid, state, generation } => ChannelStep {
            stage: ChannelStageView::Rest,
            status_tick,
            action: ChannelActionView::ReadInbox { claude_pid, state, generation },
        },
        ChannelStageView::Rest => ChannelStep {
            stage: ChannelStageView::Turn,
            status_tick: next_tick(status_tick),
            action: ChannelActionView::Wait {
                interval_ms: store.interval(CHANNEL_INBOX_POLL_INTERVAL_MS),
            },
        },
    }
}

impl ChannelPoll {
    pub fn new() -> (poll: ChannelPoll)
        ensures
            poll.stage@ == ChannelStageView::Turn,
            poll.status_tick == 0,
    {
        ChannelPoll { stage: ChannelStage::Turn, status_tick: 0 }
    }

    /// The next step of the poll.
    pub fn step(&mut self, store: &ClaudeSessionStore) -> (action: ChannelAction)
        ensures
            (ChannelStep {
                stage: final(self).stage@,
                status_tick: final(self).status_tick,
                action: action@,
            }) == channel_step(old(self).stage@, old(self).status_tick, store@),
    {
        let mut stage = ChannelStage::Rest;
        std::mem::swap(&mut stage, &mut self.stage);
        match stage {
            ChannelStage::Turn => match store.channel_read_request() {
                Some((claude_pid, state, generation)) => {
                    if self.status_tick % CHANNEL_STATUS_POLL_TICKS == 0 {
                        self.stage = ChannelStage::Inbox { claude_pid, state, generation };
                        ChannelAction::ReadStatus { claude_pid }
                    } else {
                        ChannelAction::ReadInbox { claude_pid, state, generation }
                    }
                },
                None => ChannelAction::Forget,
            },
            ChannelStage::Inbox { claude_pid, state, generation } => ChannelAction::ReadInbox {
                claude_pid,
                state,
                generation,
            },
            ChannelStage::Rest => {
                self.stage = ChannelStage::Turn;
                self.status_tick = self.status_tick.saturating_add(1);
                ChannelAction::Wait {
                    interval_ms: store.poll_interval_ms(CHANNEL_INBOX_POLL_INTERVAL_MS),
                }
            },
        }
    }
}

/// The poll of the conversations: the reads of a turn that are still to be issued.
pub struct TranscriptPoll {
    pub in_turn: bool,
    pub reads: Vec<(TranscriptTarget, String, TailState)>,
}

/// What the transcript poll does next.
#[derive(Debug, PartialEq, Eq)]
pub enum TranscriptAction {
    /// The answer goes to [`ClaudeSessionStore::apply_tail_progress`].
    Read { target: TranscriptTarget, session_id: String, state: TailState },
    Wait { interval_ms: u64 },
}

/// What a [`TranscriptAction`] says.
pub enum TranscriptActionView {
    Read { target: TranscriptTargetView, session_id: Seq<char>, state: TailStateView },
    Wait { interval_ms: u64 },
}

impl View for TranscriptAction {
    type V = TranscriptActionView;

    open spec fn view(&self) -> TranscriptActionView {
        match *self {
            TranscriptAction::Read { target, session_id, state } => TranscriptActionView::Read {
                target: target@,
                session_id: session_id@,
                state: state@,
            },
            TranscriptAction::Wait { interval_ms } => TranscriptActionView::Wait { interval_ms },
        }
    }
}

impl TranscriptPoll {
    pub fn new() -> (poll: TranscriptPoll)
        ensures
            !poll.in_turn,
            poll.reads@.len() == 0,
    {
        TranscriptPoll { in_turn: false, reads: Vec::new() }
    }

    /// The reads that are still to be issued: those of a new turn where none is under way.
    pub open spec fn due(self, store: StoreView) -> Seq<
        (TranscriptTargetView, Seq<char>, TailStateView),
    > {
        if self.in_turn {
            read_views(self.reads@)
        } else {
            store.tail_reads()
        }
    }

    /// The next step of the poll: the reads of a turn one by one, then a rest.
    pub fn step(&mut self, store: &ClaudeSessionStore) -> (action: TranscriptAction)
        ensures
            ({
                let due = old(self).due(store@);
                if due.len() > 0 {
                    &&& final(self).in_turn
                    &&& read_views(final(self).reads@) == due.drop_first()
                    &&& action@ == (TranscriptActionView::Read {
                        target: due[0].0,
                        session_id: due[0].1,
                        state: due[0].2,
                    })
                } else {
                    &&& !final(self).in_turn
                    &&& final(self).reads@.len() == 0
                    &&& action@ == (TranscriptActionView::Wait {
                        interval_ms: store@.transcript_interval(),
                    })
                }
            }),
    {
        if !self.in_turn {
            self.reads = store.tail_read_requests();
            self.in_turn = true;
        }
        let ghost due = read_views(self.reads@);
        if self.reads.len() > 0 {
            let (target, session_id, state) = self.reads.remove(0);
            assert(due[0] == (target@, session_id@, state@));
            assert(read_views(self.reads@) =~= due.drop_first());
            return TranscriptAction::Read { target, session_id, state };
        }
        self.in_turn = false;
        TranscriptAction::Wait { interval_ms: store.transcript_interval_ms() }
    }
}

/// How long the poll of the hook events waits between two turns.
pub open spec fn events_wait(store: StoreView) -> u64 {
    store.interval(EVENTS_POLL_INTERVAL_MS)
}

/// How long the poll of the status line waits between two turns.
pub open spec fn status_wait(store: StoreView) -> u64 {
    store.interval(STATUS_POLL_INTERVAL_MS)
}

/// The poll of the hook events: whether the read of this turn has been issued.
#[derive(Clone, Copy, Debug, PartialEq, Eq, Structural)]
pub struct EventsPoll {
    pub has_read: bool,
}

/// What the events poll does next.
#[derive(Debug, PartialEq, Eq)]
pub enum EventsAction {
    /// The answer goes to [`ClaudeSessionStore::apply_events_progress`], with the offset of
    /// `state` as the one that the read began at.
    Read { session_id: String, state: TailState },
    Wait { interval_ms: u64 },
}

impl EventsPoll {
    pub fn new() -> (poll: EventsPoll)
        ensures
            !poll.has_read,
    {
        EventsPoll { has_read: false }
    }

    /// The next step of the poll.
    pub fn step(&mut self, store: &ClaudeSessionStore) -> (action: EventsAction)
        ensures
            match action {
                EventsAction::Read { session_id, state } => {
                    &&& !old(self).has_read
                    &&& final(self).has_read
                    &&& store@.read_session() == Some(session_id@)
                    &&& state@ == store@.events.state()
                },
                EventsAction::Wait { interval_ms } => {
                    &&& old(self).has_read || store@.read_session() is None
                    &&& !final(self).has_read
                    &&& interval_ms == store@.interval(EVENTS_POLL_INTERVAL_MS)
                },
            },
            action matches EventsAction::Wait { interval_ms } ==> interval_ms == events_wait(store@),
    {
        if !self.has_read {
            if let Some((session_id, state)) = store.events_read_request() {
                self.has_read = true;
                return EventsAction::Read { session_id, state };
            }
        }
        self.has_read = false;
        EventsAction::Wait { interval_ms: store.poll_interval_ms(EVENTS_POLL_INTERVAL_MS) }
    }
}

/// The poll of the status line: whether the read of this turn has been issued.
#[derive(Clone, Copy, Debug, PartialEq, Eq, Structural)]
pub struct StatusPoll {
    pub has_read: bool,
}

/// What the status poll does next.
#[derive(Debug, PartialEq, Eq)]
pub enum StatusAction {
    /// The answer goes to [`ClaudeSessionStore::apply_status`].
    Read { session_id: String },
    Wait { interval_ms: u64 },
}

impl StatusPoll {
    pub fn new() -> (poll: StatusPoll)
        ensures
            !poll.has_read,
    {
        StatusPoll { has_read: false }
    }

    /// The next step of the poll.
    pub fn step(&mut self, store: &ClaudeSessionStore) -> (action: StatusAction)
        ensures
            match action {
                StatusAction::Read { session_id } => {
                    &&& !old(self).has_read
                    &&& final(self).has_read
                    &&& store@.read_session() == Some(session_id@)
                },
                StatusAction::Wait { interval_ms } => {
                    &&& old(self).has_read || store@.read_session() is None
                    &&& !final(self).has_read
                    &&& interval_ms == store@.interval(STATUS_POLL_INTERVAL_MS)
                },
            },
            action matches StatusAction::Wait { interval_ms } ==> interval_ms == status_wait(store@),
    {
        if !self.has_read {
            if let Some(session_id) = store.status_read_request() {
                self.has_read = true;
                return StatusAction::Read { session_id };
            }
        }
        self.has_read = false;
        StatusAction::Wait { interval_ms: store.poll_interval_ms(STATUS_POLL_INTERVAL_MS) }
    }
}

} // verus!
